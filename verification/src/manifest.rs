//! Rewriting dependency requirements in the manifest's TOML document while
//! keeping its formatting: `toml_edit` holds and edits the document; the
//! library decides, entry by entry, which edit each update makes.

use vstd::prelude::*;
use crate::dependency::{DependencySection, DependencyUpdate, UpdateView, section_key, update_views};

verus! {

#[verifier::external_type_specification]
#[verifier::external_body]
pub struct ExDocumentMut(toml_edit::DocumentMut);

/// What a TOML item is, as far as rewriting a requirement goes.
#[derive(Clone, Copy, Debug, PartialEq, Eq, Structural)]
pub enum TomlShape {
    /// A table under its own header, such as `[dependencies.serde]`.
    Table,
    /// An inline table, such as `{ version = "1", features = ["derive"] }`.
    InlineTable,
    /// Any other value (a string, a number, an array, ...) or an array of
    /// tables.
    Other,
}

/// An entry of a table-like section, as plain values.
pub struct EntryView {
    /// What the entry is.
    pub shape: TomlShape,
    /// The requirement it gives: its text when it is a string, or the text of
    /// its `version` field when it is a table or inline table whose
    /// `version` is a string.
    pub version: Option<Seq<char>>,
    /// Its fields when it is a table or inline table (none otherwise): each
    /// key with the text `Display` writes for the field's item, formatting
    /// included.
    pub fields: Map<Seq<char>, Seq<char>>,
}

/// The sections and their entries of a document, as plain values.
pub struct DocumentView {
    /// Each top-level key that holds an item, with what the item is.
    pub sections: Map<Seq<char>, TomlShape>,
    /// Each (section, key) pair of a table or inline table at the top level
    /// that holds an item, with what the item is.
    pub entries: Map<(Seq<char>, Seq<char>), EntryView>,
}

/// The top-level items of a `toml_edit` document: the keys for which
/// `Table::get` on the root finds an item, with the shape of that item.
pub uninterp spec fn toml_sections(doc: toml_edit::DocumentMut) -> Map<Seq<char>, TomlShape>;

/// The second-level items of a `toml_edit` document: the (section, key)
/// pairs for which `Item::get` finds an item inside a top-level table or
/// inline table, with that item's shape, requirement text and fields.
pub uninterp spec fn toml_entries(doc: toml_edit::DocumentMut) -> Map<(Seq<char>, Seq<char>), EntryView>;

/// The text `Display` writes for a `toml_edit` document: its items with
/// their formatting, comments and order as the document holds them.
pub uninterp spec fn toml_text(doc: toml_edit::DocumentMut) -> Seq<char>;

/// The text `Display` writes for `Value::from(text)`: a new string value with
/// default formatting.
pub uninterp spec fn new_string_text(text: Seq<char>) -> Seq<char>;

/// What `DocumentMut::from_str` makes of a text: the sections and entries of
/// the document, or `None` where it reports an error.
pub uninterp spec fn parsed_toml(text: Seq<char>) -> Option<DocumentView>;

/// The plain values of a `toml_edit` document.
pub open spec fn document_view(doc: toml_edit::DocumentMut) -> DocumentView {
    DocumentView { sections: toml_sections(doc), entries: toml_entries(doc) }
}

/// The shape of an entry, if the entry exists.
pub open spec fn entry_shape(d: DocumentView, section: Seq<char>, name: Seq<char>) -> Option<TomlShape> {
    match d.entries.get((section, name)) {
        Some(e) => Some(e.shape),
        None => None,
    }
}

/// Whether `doc[section]` can be indexed by a key without a panic: the
/// section is absent, a table or an inline table.
pub open spec fn section_indexable(d: DocumentView, section: Seq<char>) -> bool {
    d.sections.get(section) != Some(TomlShape::Other)
}

/// Calls `str::parse::<DocumentMut>`, keeping the `Display` text of the error.
#[verifier::external_body]
fn parse_toml_document(text: &str) -> (r: Result<toml_edit::DocumentMut, String>)
    ensures
        r is Err <==> parsed_toml(text@) is None,
        r matches Ok(doc) ==> parsed_toml(text@) == Some(document_view(doc)),
{
    match text.parse::<toml_edit::DocumentMut>() {
        Ok(doc) => Ok(doc),
        Err(error) => Err(error.to_string()),
    }
}

/// Calls `Display` on the document: its text, formatting kept.
#[verifier::external_body]
fn toml_document_text(doc: &toml_edit::DocumentMut) -> (r: String)
    ensures
        r@ == toml_text(*doc),
{
    doc.to_string()
}

/// Reads what `doc.get(section)` and then `Item::get(name)` find.
#[verifier::external_body]
fn read_entry_shape(doc: &toml_edit::DocumentMut, section: &str, name: &str) -> (r: Option<TomlShape>)
    ensures
        r == entry_shape(document_view(*doc), section@, name@),
        r is Some ==> toml_sections(*doc).get(section@) == Some(TomlShape::Table)
            || toml_sections(*doc).get(section@) == Some(TomlShape::InlineTable),
{
    let entry = match doc.get(section) {
        Some(item) => item.get(name),
        None => None,
    };
    match entry {
        Some(toml_edit::Item::Table(_)) => Some(TomlShape::Table),
        Some(toml_edit::Item::Value(toml_edit::Value::InlineTable(_))) => Some(TomlShape::InlineTable),
        Some(toml_edit::Item::Value(_)) => Some(TomlShape::Other),
        Some(toml_edit::Item::ArrayOfTables(_)) => Some(TomlShape::Other),
        Some(toml_edit::Item::None) => None,
        None => None,
    }
}

/// Reads what `doc.get(section)` finds.
#[verifier::external_body]
fn read_section_shape(doc: &toml_edit::DocumentMut, section: &str) -> (r: Option<TomlShape>)
    ensures
        r == document_view(*doc).sections.get(section@),
{
    match doc.get(section) {
        Some(toml_edit::Item::Table(_)) => Some(TomlShape::Table),
        Some(toml_edit::Item::Value(toml_edit::Value::InlineTable(_))) => Some(TomlShape::InlineTable),
        Some(toml_edit::Item::Value(_)) => Some(TomlShape::Other),
        Some(toml_edit::Item::ArrayOfTables(_)) => Some(TomlShape::Other),
        Some(toml_edit::Item::None) => None,
        None => None,
    }
}

/// The entry after its table-like form gets its `version` field set to the
/// string `version`, whose item `Display` writes as `text`.
pub open spec fn with_version_field(e: EntryView, version: Seq<char>, text: Seq<char>) -> EntryView {
    EntryView { shape: e.shape, version: Some(version), fields: e.fields.insert("version"@, text) }
}

/// A plain string entry holding `version`.
pub open spec fn plain_entry(version: Seq<char>) -> EntryView {
    EntryView { shape: TomlShape::Other, version: Some(version), fields: Map::empty() }
}

/// Calls `InlineTable::insert("version", Value::from(version))` on the
/// inline table at `doc[section][name]`: the field is replaced or added, the
/// other fields stay.
#[verifier::external_body]
fn set_inline_table_version(doc: &mut toml_edit::DocumentMut, section: &str, name: &str, version: &str)
    requires
        entry_shape(document_view(*old(doc)), section@, name@) == Some(TomlShape::InlineTable),
    ensures
        toml_sections(*final(doc)) == toml_sections(*old(doc)),
        toml_entries(*final(doc)) == toml_entries(*old(doc)).insert(
            (section@, name@),
            with_version_field(toml_entries(*old(doc))[(section@, name@)], version@, new_string_text(version@)),
        ),
{
    if let Some(table) = doc[section][name].as_inline_table_mut() {
        table.insert("version", toml_edit::Value::from(version.to_string()));
    }
}

/// Calls `TableLike::insert("version", value(version))` on the table at
/// `doc[section][name]`: the field is replaced or added, the other fields
/// stay.
#[verifier::external_body]
fn set_table_version(doc: &mut toml_edit::DocumentMut, section: &str, name: &str, version: &str)
    requires
        entry_shape(document_view(*old(doc)), section@, name@) == Some(TomlShape::Table),
    ensures
        toml_sections(*final(doc)) == toml_sections(*old(doc)),
        toml_entries(*final(doc)) == toml_entries(*old(doc)).insert(
            (section@, name@),
            with_version_field(toml_entries(*old(doc))[(section@, name@)], version@, new_string_text(version@)),
        ),
{
    if let Some(table) = doc[section][name].as_table_like_mut() {
        table.insert("version", toml_edit::value(version.to_string()));
    }
}

/// Assigns `value(version)` to `doc[section][name]`. Indexing a missing
/// section adds it as an empty inline table; indexing a section that is
/// neither a table nor an inline table panics, which `requires` rules out.
#[verifier::external_body]
fn set_plain_version(doc: &mut toml_edit::DocumentMut, section: &str, name: &str, version: &str)
    requires
        section_indexable(document_view(*old(doc)), section@),
    ensures
        toml_sections(*final(doc)) == (if toml_sections(*old(doc)).contains_key(section@) {
            toml_sections(*old(doc))
        } else {
            toml_sections(*old(doc)).insert(section@, TomlShape::InlineTable)
        }),
        toml_entries(*final(doc)) == toml_entries(*old(doc)).insert((section@, name@), plain_entry(version@)),
{
    doc[section][name] = toml_edit::value(version.to_string());
}

/// The document after `section.name` is made to require `version`: a
/// table or inline table gets its `version` field set, anything else
/// (including a missing entry) becomes the plain string.
pub open spec fn with_requirement(d: DocumentView, section: Seq<char>, name: Seq<char>, version: Seq<char>) -> DocumentView {
    match d.entries.get((section, name)) {
        Some(e) => if e.shape != TomlShape::Other {
            DocumentView { sections: d.sections, entries: d.entries.insert((section, name), with_version_field(e, version, new_string_text(version))) }
        } else {
            DocumentView { sections: d.sections, entries: d.entries.insert((section, name), plain_entry(version)) }
        },
        None => DocumentView {
            sections: if d.sections.contains_key(section) { d.sections } else { d.sections.insert(section, TomlShape::InlineTable) },
            entries: d.entries.insert((section, name), plain_entry(version)),
        },
    }
}

/// The document after each update, in order, sets its dependency's
/// requirement to the update's target.
pub open spec fn with_updates(d: DocumentView, us: Seq<UpdateView>) -> DocumentView
    decreases us.len(),
{
    if us.len() == 0 {
        d
    } else {
        let u = us.last();
        with_requirement(with_updates(d, us.drop_last()), section_key(u.section), u.name, u.target_requirement)
    }
}

/// Every update's section can be indexed.
pub open spec fn sections_indexable(d: DocumentView, us: Seq<UpdateView>) -> bool {
    forall|k: int| 0 <= k < us.len() ==> section_indexable(d, section_key(#[trigger] us[k].section))
}

/// A manifest as an editable TOML document, formatting kept.
pub struct ManifestDocument {
    document: toml_edit::DocumentMut,
}

impl View for ManifestDocument {
    type V = DocumentView;

    closed spec fn view(&self) -> DocumentView {
        document_view(self.document)
    }
}

proof fn lemma_edit_keeps_indexable(d: DocumentView, section: Seq<char>, name: Seq<char>, version: Seq<char>, other: Seq<char>)
    requires
        section_indexable(d, section),
        section_indexable(d, other),
    ensures
        section_indexable(with_requirement(d, section, name, version), other),
{
}

impl ManifestDocument {
    /// The text of the document, as `toml_edit` renders it.
    pub closed spec fn text(&self) -> Seq<char> {
        toml_text(self.document)
    }

    /// Parses the text of a manifest; the error is the TOML parser's message.
    pub fn parse(text: &str) -> (r: Result<ManifestDocument, String>)
        ensures
            r is Err <==> parsed_toml(text@) is None,
            r matches Ok(doc) ==> parsed_toml(text@) == Some(doc@),
    {
        match parse_toml_document(text) {
            Ok(document) => Ok(ManifestDocument { document }),
            Err(message) => Err(message),
        }
    }

    /// The document's text, formatting kept.
    pub fn to_text(&self) -> (r: String)
        ensures
            r@ == self.text(),
    {
        toml_document_text(&self.document)
    }

    /// What the top-level item `section` is, if the document has it.
    pub fn section_shape(&self, section: &str) -> (r: Option<TomlShape>)
        ensures
            r == self@.sections.get(section@),
    {
        read_section_shape(&self.document, section)
    }

    /// Makes `section.name` require `version` (see [`with_requirement`]).
    pub fn set_requirement(&mut self, section: &str, name: &str, version: &str)
        requires
            section_indexable(old(self)@, section@),
        ensures
            final(self)@ == with_requirement(old(self)@, section@, name@, version@),
    {
        match read_entry_shape(&self.document, section, name) {
            Some(TomlShape::InlineTable) => set_inline_table_version(&mut self.document, section, name, version),
            Some(TomlShape::Table) => set_table_version(&mut self.document, section, name, version),
            _ => set_plain_version(&mut self.document, section, name, version),
        }
        assert(self@.sections =~= with_requirement(old(self)@, section@, name@, version@).sections);
        assert(self@.entries =~= with_requirement(old(self)@, section@, name@, version@).entries);
    }

    /// Rewrites each update's dependency to its target requirement, in
    /// order: a table or inline table gets its `version` field set and keeps
    /// its other fields; a plain requirement is replaced.
    pub fn apply(&mut self, updates: &[DependencyUpdate])
        requires
            sections_indexable(old(self)@, update_views(updates@)),
        ensures
            final(self)@ == with_updates(old(self)@, update_views(updates@)),
    {
        let ghost us = update_views(updates@);
        let mut i: usize = 0;
        while i < updates.len()
            invariant
                i <= updates@.len(),
                us == update_views(updates@),
                self@ == with_updates(old(self)@, us.take(i as int)),
                sections_indexable(self@, us),
            decreases updates@.len() - i,
        {
            let update = &updates[i];
            let key = update.section.toml_key();
            assert(us[i as int] == update@);
            assert(section_indexable(self@, section_key(us[i as int].section)));
            let ghost before = self@;
            self.set_requirement(key, update.name.as_str(), update.target_requirement.as_str());
            proof {
                assert(us.take(i + 1).drop_last() =~= us.take(i as int));
                assert(us.take(i + 1).last() == update@);
                assert forall|k: int| 0 <= k < us.len() implies section_indexable(self@, section_key(#[trigger] us[k].section)) by {
                    lemma_edit_keeps_indexable(before, key@, update.name@, update.target_requirement@, section_key(us[k].section));
                }
            }
            i = i + 1;
        }
        assert(us.take(updates@.len() as int) =~= us);
    }

    /// Rewrites the updates' requirements (see [`ManifestDocument::apply`])
    /// when every update's section is absent, a table or an inline table;
    /// otherwise leaves the document as it is. Tells which happened.
    pub fn apply_checked(&mut self, updates: &[DependencyUpdate]) -> (applied: bool)
        ensures
            applied == sections_indexable(old(self)@, update_views(updates@)),
            applied ==> final(self)@ == with_updates(old(self)@, update_views(updates@)),
            !applied ==> final(self)@ == old(self)@,
    {
        let ghost us = update_views(updates@);
        let mut i: usize = 0;
        while i < updates.len()
            invariant
                i <= updates@.len(),
                us == update_views(updates@),
                forall|k: int| 0 <= k < i ==> section_indexable(self@, section_key(#[trigger] us[k].section)),
            decreases updates@.len() - i,
        {
            let key = updates[i].section.toml_key();
            assert(us[i as int] == updates@[i as int]@);
            match self.section_shape(key) {
                Some(TomlShape::Other) => {
                    assert(!section_indexable(self@, section_key(us[i as int].section)));
                    return false;
                },
                _ => {},
            }
            i = i + 1;
        }
        self.apply(updates);
        true
    }
}

/// A requirement to write, named by its table and crate.
#[derive(Debug)]
pub struct UpgradeDecision {
    pub table: DependencySection,
    pub crate_name: String,
    pub next_requirement: String,
}

impl UpgradeDecision {
    pub fn new(table: DependencySection, crate_name: String, next_requirement: String) -> (r: Self)
        ensures
            r.table == table,
            r.crate_name@ == crate_name@,
            r.next_requirement@ == next_requirement@,
    {
        UpgradeDecision { table, crate_name, next_requirement }
    }
}

/// The document after each decision, in order, replaces its entry with the
/// plain string of its requirement.
pub open spec fn with_decisions(d: DocumentView, ds: Seq<UpgradeDecision>) -> DocumentView
    decreases ds.len(),
{
    if ds.len() == 0 {
        d
    } else {
        let last = ds.last();
        let before = with_decisions(d, ds.drop_last());
        let section = section_key(last.table);
        DocumentView {
            sections: if before.sections.contains_key(section) { before.sections } else { before.sections.insert(section, TomlShape::InlineTable) },
            entries: before.entries.insert((section, last.crate_name@), plain_entry(last.next_requirement@)),
        }
    }
}

/// Writes each decision's requirement as the plain string of its entry,
/// replacing what the entry was.
pub fn apply_updates(document: &mut ManifestDocument, updates: &[UpgradeDecision])
    requires
        forall|k: int| 0 <= k < updates@.len() ==> section_indexable(old(document)@, section_key(#[trigger] updates@[k].table)),
    ensures
        final(document)@ == with_decisions(old(document)@, updates@),
{
    let mut i: usize = 0;
    while i < updates.len()
        invariant
            i <= updates@.len(),
            document@ == with_decisions(old(document)@, updates@.take(i as int)),
            forall|k: int| 0 <= k < updates@.len() ==> section_indexable(document@, section_key(#[trigger] updates@[k].table)),
        decreases updates@.len() - i,
    {
        let update = &updates[i];
        let key = update.table.toml_key();
        set_plain_version(&mut document.document, key, update.crate_name.as_str(), update.next_requirement.as_str());
        assert(updates@.take(i + 1).drop_last() =~= updates@.take(i as int));
        assert(updates@.take(i + 1).last() == *update);
        assert(document@.sections =~= with_decisions(old(document)@, updates@.take(i + 1)).sections);
        assert(document@.entries =~= with_decisions(old(document)@, updates@.take(i + 1)).entries);
        i = i + 1;
    }
    assert(updates@.take(updates@.len() as int) =~= updates@);
}

/// Rewriting a requirement keeps the entry's form: a table or inline table
/// stays one, gets `version` set and keeps every other field with its text;
/// a plain requirement stays a plain string. No other entry and no section
/// changes.
pub proof fn rewriting_keeps_the_entry_form(d: DocumentView, section: Seq<char>, name: Seq<char>, version: Seq<char>)
    requires
        d.entries.contains_key((section, name)),
    ensures
        ({
            let after = with_requirement(d, section, name, version);
            let e = d.entries[(section, name)];
            &&& after.sections == d.sections
            &&& after.entries[(section, name)].shape == e.shape
            &&& after.entries[(section, name)].version == Some(version)
            &&& e.shape != TomlShape::Other ==> after.entries[(section, name)].fields == e.fields.insert("version"@, new_string_text(version))
            &&& e.shape != TomlShape::Other ==> forall|f: Seq<char>| f != "version"@
                ==> #[trigger] after.entries[(section, name)].fields.get(f) == e.fields.get(f)
            &&& forall|k: (Seq<char>, Seq<char>)| k != (section, name) ==> #[trigger] after.entries.get(k) == d.entries.get(k)
        }),
{
}

/// Applying updates changes only the entries they name: every other entry
/// keeps what it was.
pub proof fn updates_touch_only_their_entries(d: DocumentView, us: Seq<UpdateView>, section: Seq<char>, name: Seq<char>)
    requires
        forall|k: int| 0 <= k < us.len() ==> (section_key((#[trigger] us[k]).section), us[k].name) != (section, name),
    ensures
        with_updates(d, us).entries.get((section, name)) == d.entries.get((section, name)),
    decreases us.len(),
{
    if us.len() > 0 {
        let last = us.last();
        assert(us.drop_last().len() == us.len() - 1);
        assert forall|k: int| 0 <= k < us.drop_last().len() implies (section_key((#[trigger] us.drop_last()[k]).section), us.drop_last()[k].name) != (section, name) by {
            assert(us.drop_last()[k] == us[k]);
        }
        updates_touch_only_their_entries(d, us.drop_last(), section, name);
        assert(us[us.len() - 1] == last);
    }
}

/// After applying updates, each dependency reads back the requirement its
/// update wrote, unless a later update rewrote the same entry.
pub proof fn updated_requirements_read_back(d: DocumentView, us: Seq<UpdateView>, k: int)
    requires
        0 <= k < us.len(),
        forall|j: int| k < j < us.len() ==> (section_key((#[trigger] us[j]).section), us[j].name) != (section_key(us[k].section), us[k].name),
    ensures
        with_updates(d, us).entries.contains_key((section_key(us[k].section), us[k].name)),
        with_updates(d, us).entries[(section_key(us[k].section), us[k].name)].version == Some(us[k].target_requirement),
    decreases us.len(),
{
    let p = us.drop_last();
    if k < us.len() - 1 {
        assert forall|j: int| k < j < p.len() implies (section_key((#[trigger] p[j]).section), p[j].name) != (section_key(p[k].section), p[k].name) by {
            assert(p[j] == us[j]);
            assert(p[k] == us[k]);
        }
        updated_requirements_read_back(d, p, k);
        assert(p[k] == us[k]);
        assert(us.last() == us[us.len() - 1]);
    } else {
        assert(us.last() == us[k]);
    }
}

} // verus!
