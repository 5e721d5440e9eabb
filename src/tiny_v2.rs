//! The TinyV2 mapping format: its data model, its parser and its lookups.
use vstd::prelude::*;

use vstd::utf8::{decode_utf8, encode_utf8_decode_utf8, valid_utf8};

use crate::mapping::{
    descriptor_image, remap_descriptor_with, rename_fn, ClassRename, Mapping, MappingError,
    MappingErrorView, MappingLoader,
};
use crate::text::{
    decimal, is_text, join_with, lemma_decimal_round_trip, lemma_split_join, lemma_split_on_nonempty,
    lines_of, parse_usize, split_chars, split_on, string_of, text_lines, to_chars, usize_of,
    utf8_text, views,
};

verus! {

/// The optional name as a character sequence.
pub open spec fn opt_view(o: Option<String>) -> Option<Seq<char>> {
    match o {
        Some(s) => Some(s@),
        None => None,
    }
}

/// The map that a list of entries stands for: a later entry for a key
/// replaces an earlier one.
pub open spec fn assoc<K: View, V: View>(s: Seq<(K, V)>) -> Map<K::V, V::V>
    decreases s.len(),
{
    if s.len() == 0 {
        Map::empty()
    } else {
        assoc(s.drop_last()).insert(s.last().0@, s.last().1@)
    }
}

/// The entry at `i` is the one that the map holds for its key when no later
/// entry has that key.
pub proof fn lemma_assoc_last<K: View, V: View>(s: Seq<(K, V)>, i: int)
    requires
        0 <= i < s.len(),
        forall|j: int| i < j < s.len() ==> (#[trigger] s[j]).0@ != s[i].0@,
    ensures
        assoc(s).contains_key(s[i].0@),
        assoc(s)[s[i].0@] == s[i].1@,
    decreases s.len(),
{
    if i < s.len() - 1 {
        assert forall|j: int| i < j < s.drop_last().len() implies (
        #[trigger] s.drop_last()[j]).0@ != s.drop_last()[i].0@ by {
            assert(s[j] == s.drop_last()[j]);
        }
        lemma_assoc_last(s.drop_last(), i);
    }
}

/// A key that no entry has is not in the map.
pub proof fn lemma_assoc_absent<K: View, V: View>(s: Seq<(K, V)>, k: K::V)
    requires
        forall|j: int| 0 <= j < s.len() ==> (#[trigger] s[j]).0@ != k,
    ensures
        !assoc(s).contains_key(k),
    decreases s.len(),
{
    if s.len() > 0 {
        assert forall|j: int| 0 <= j < s.drop_last().len() implies (
        #[trigger] s.drop_last()[j]).0@ != k by {
            assert(s[j] == s.drop_last()[j]);
        }
        lemma_assoc_absent(s.drop_last(), k);
    }
}

/// No two entries have the same key.
pub open spec fn unique_keys<K: View, V>(s: Seq<(K, V)>) -> bool {
    forall|i: int, j: int| 0 <= i < j < s.len() ==> (#[trigger] s[i]).0@ != (#[trigger] s[j]).0@
}

/// Removing the one entry of a key removes the key from the map.
pub proof fn lemma_assoc_remove<K: View, V: View>(s: Seq<(K, V)>, i: int)
    requires
        unique_keys(s),
        0 <= i < s.len(),
    ensures
        assoc(s.remove(i)) == assoc(s).remove(s[i].0@),
    decreases s.len(),
{
    let k = s[i].0@;
    let front = s.drop_last();
    assert forall|a: int, b: int| 0 <= a < b < front.len() implies (#[trigger] front[a]).0@ != (
    #[trigger] front[b]).0@ by {
        assert(front[a] == s[a] && front[b] == s[b]);
    }
    if i == s.len() - 1 {
        assert(s.remove(i) =~= front);
        assert forall|j: int| 0 <= j < front.len() implies (#[trigger] front[j]).0@ != k by {
            assert(front[j] == s[j]);
        }
        lemma_assoc_absent(front, k);
        assert(assoc(front) =~= assoc(front).insert(k, s[i].1@).remove(k));
    } else {
        lemma_assoc_remove(front, i);
        assert(s.remove(i) =~= front.remove(i).push(s.last()));
        assert(s.remove(i).drop_last() =~= front.remove(i));
        assert(s.last() == s[s.len() - 1]);
        assert(s.last().0@ != k);
        assert(assoc(s.remove(i)) =~= assoc(s).remove(k));
    }
}

/// Puts `entry` last, in place of the entry that `found` points at (the one
/// with the same key) or after all of them when there is none.
fn put_last<K: View, V: View>(entries: &mut Vec<(K, V)>, found: Option<usize>, entry: (K, V))
    requires
        unique_keys(old(entries)@),
        match found {
            Some(i) => i < old(entries)@.len() && old(entries)@[i as int].0@ == entry.0@,
            None => forall|j: int|
                0 <= j < old(entries)@.len() ==> (#[trigger] old(entries)@[j]).0@ != entry.0@,
        },
    ensures
        unique_keys(final(entries)@),
        assoc(final(entries)@) == assoc(old(entries)@).insert(entry.0@, entry.1@),
        final(entries)@ == match found {
            Some(i) => old(entries)@.remove(i as int).push(entry),
            None => old(entries)@.push(entry),
        },
{
    let ghost before = entries@;
    let ghost key = entry.0@;
    match found {
        Some(i) => {
            proof {
                lemma_assoc_remove(before, i as int);
            }
            entries.remove(i);
            assert forall|j: int| 0 <= j < entries@.len() implies (#[trigger] entries@[j]).0@ != key by {
                if j < i {
                    assert(entries@[j] == before[j]);
                } else {
                    assert(entries@[j] == before[j + 1]);
                }
            }
        },
        None => {},
    }
    let ghost rest = entries@;
    entries.push(entry);
    assert(entries@.drop_last() =~= rest);
    assert(assoc(entries@) =~= assoc(before).insert(key, entry.1@));
    assert forall|a: int, b: int| 0 <= a < b < entries@.len() implies (#[trigger] entries@[a]).0@ != (
    #[trigger] entries@[b]).0@ by {
        if b < entries@.len() - 1 {
            assert(entries@[a] == rest[a] && entries@[b] == rest[b]);
            match found {
                Some(i) => {
                    let ia = if a < i { a } else { a + 1 };
                    let ib = if b < i { b } else { b + 1 };
                    assert(rest[a] == before[ia] && rest[b] == before[ib]);
                },
                None => {},
            }
        } else {
            assert(entries@[a] == rest[a]);
        }
    }
}

/// The header of a TinyV2 file.
#[derive(Debug)]
pub struct Header {
    pub major_version: usize,
    pub minor_version: usize,
    /// The namespace names, in column order.
    pub namespaces: Vec<String>,
}

/// The mathematical value of a [`Header`].
pub struct HeaderView {
    pub major_version: usize,
    pub minor_version: usize,
    pub namespaces: Seq<Seq<char>>,
}

/// The character sequences of a list of strings.
pub open spec fn strings_view(v: Seq<String>) -> Seq<Seq<char>> {
    v.map_values(|s: String| s@)
}

impl View for Header {
    type V = HeaderView;

    open spec fn view(&self) -> HeaderView {
        HeaderView {
            major_version: self.major_version,
            minor_version: self.minor_version,
            namespaces: strings_view(self.namespaces@),
        }
    }
}

/// The names of a method or field in the other namespaces.
pub struct MemberView {
    pub official: Option<Seq<char>>,
    pub intermediary: Option<Seq<char>>,
}

/// The names of a method in the `official` and `intermediary` namespaces;
/// `None` means the same as in `named`.
#[derive(Debug)]
pub struct MethodMapping {
    official_name: Option<String>,
    intermediary_name: Option<String>,
}

impl View for MethodMapping {
    type V = MemberView;

    closed spec fn view(&self) -> MemberView {
        MemberView {
            official: opt_view(self.official_name),
            intermediary: opt_view(self.intermediary_name),
        }
    }
}

/// The names of a field in the `official` and `intermediary` namespaces;
/// `None` means the same as in `named`.
#[derive(Debug)]
pub struct FieldMapping {
    official_name: Option<String>,
    intermediary_name: Option<String>,
}

impl View for FieldMapping {
    type V = MemberView;

    closed spec fn view(&self) -> MemberView {
        MemberView {
            official: opt_view(self.official_name),
            intermediary: opt_view(self.intermediary_name),
        }
    }
}

/// A member key: the named-namespace name and the descriptor as resolved
/// into the official namespace.
pub type MemberKey = (Seq<char>, Seq<char>);

/// The mathematical value of a [`ClassMapping`].
pub struct ClassView {
    pub official: Option<Seq<char>>,
    pub intermediary: Option<Seq<char>>,
    pub methods: Map<MemberKey, MemberView>,
    pub fields: Map<MemberKey, MemberView>,
}

/// A class's names in the other namespaces, and its members, keyed by
/// (named name, official descriptor).
#[derive(Debug)]
pub struct ClassMapping {
    official_name: Option<String>,
    intermediary_name: Option<String>,
    methods: Vec<((String, String), MethodMapping)>,
    fields: Vec<((String, String), FieldMapping)>,
}

impl View for ClassMapping {
    type V = ClassView;

    closed spec fn view(&self) -> ClassView {
        ClassView {
            official: opt_view(self.official_name),
            intermediary: opt_view(self.intermediary_name),
            methods: assoc(self.methods@),
            fields: assoc(self.fields@),
        }
    }
}

/// The mathematical value of a [`TinyV2Mapping`].
pub struct TinyV2View {
    pub header: HeaderView,
    pub classes: Map<Seq<char>, ClassView>,
}

/// A loaded TinyV2 mapping: its header and its classes, keyed by their
/// names in the `named` namespace.
#[derive(Debug)]
pub struct TinyV2Mapping {
    header: Header,
    classes: Vec<(String, ClassMapping)>,
}

impl View for TinyV2Mapping {
    type V = TinyV2View;

    closed spec fn view(&self) -> TinyV2View {
        TinyV2View { header: self.header@, classes: assoc(self.classes@) }
    }
}

impl ClassMapping {
    /// No two methods and no two fields share a key.
    pub closed spec fn wf(&self) -> bool {
        unique_keys(self.methods@) && unique_keys(self.fields@)
    }
}

impl TinyV2Mapping {
    /// No two classes share a name, and every class is well formed.
    pub closed spec fn wf(&self) -> bool {
        &&& unique_keys(self.classes@)
        &&& forall|i: int| 0 <= i < self.classes@.len() ==> (#[trigger] self.classes@[i]).1.wf()
    }
}

/// The official name of a class: its recorded official name, else its own
/// name; a class that is not in the table keeps its name.
pub open spec fn class_image(classes: Map<Seq<char>, ClassView>, name: Seq<char>) -> Seq<char> {
    if classes.contains_key(name) {
        match classes[name].official {
            Some(o) => o,
            None => name,
        }
    } else {
        name
    }
}

/// The class renaming of a class table, as a function.
pub open spec fn renaming(classes: Map<Seq<char>, ClassView>) -> spec_fn(Seq<char>) -> Seq<char> {
    |n: Seq<char>| class_image(classes, n)
}

/// The official name of a member found under `key` in `members`, else the
/// member's own name.
pub open spec fn member_image(members: Map<MemberKey, MemberView>, key: MemberKey) -> Seq<char> {
    if members.contains_key(key) {
        match members[key].official {
            Some(o) => o,
            None => key.0,
        }
    } else {
        key.0
    }
}

/// The official name of a method: the descriptor is resolved through the
/// class table first, and then (name, resolved descriptor) is looked up in
/// the owning class.
pub open spec fn method_image(
    classes: Map<Seq<char>, ClassView>,
    class_name: Seq<char>,
    method_name: Seq<char>,
    descriptor: Seq<char>,
) -> Seq<char> {
    let key = (method_name, descriptor_image(renaming(classes), descriptor));
    if classes.contains_key(class_name) {
        member_image(classes[class_name].methods, key)
    } else {
        method_name
    }
}

/// The official name of a field, resolved as for methods.
pub open spec fn field_image(
    classes: Map<Seq<char>, ClassView>,
    class_name: Seq<char>,
    field_name: Seq<char>,
    descriptor: Seq<char>,
) -> Seq<char> {
    let key = (field_name, descriptor_image(renaming(classes), descriptor));
    if classes.contains_key(class_name) {
        member_image(classes[class_name].fields, key)
    } else {
        field_name
    }
}

/// The last entry whose key is `key`.
fn find_key<V>(entries: &Vec<(String, V)>, key: &String) -> (r: Option<usize>)
    ensures
        match r {
            Some(i) => {
                &&& i < entries@.len()
                &&& entries@[i as int].0@ == key@
                &&& forall|j: int| i < j < entries@.len() ==> (#[trigger] entries@[j]).0@ != key@
            },
            None => forall|j: int| 0 <= j < entries@.len() ==> (#[trigger] entries@[j]).0@ != key@,
        },
{
    let mut i: usize = entries.len();
    while i > 0
        invariant
            i <= entries@.len(),
            forall|j: int| i <= j < entries@.len() ==> (#[trigger] entries@[j]).0@ != key@,
        decreases i,
    {
        if entries[i - 1].0 == *key {
            return Some(i - 1);
        }
        i = i - 1;
    }
    None
}

/// The last entry whose key is (`name`, `descriptor`).
fn find_member<V>(entries: &Vec<((String, String), V)>, name: &String, descriptor: &String) -> (r:
    Option<usize>)
    ensures
        match r {
            Some(i) => {
                &&& i < entries@.len()
                &&& entries@[i as int].0@ == (name@, descriptor@)
                &&& forall|j: int|
                    i < j < entries@.len() ==> (#[trigger] entries@[j]).0@ != (name@, descriptor@)
            },
            None => forall|j: int|
                0 <= j < entries@.len() ==> (#[trigger] entries@[j]).0@ != (name@, descriptor@),
        },
{
    let mut i: usize = entries.len();
    while i > 0
        invariant
            i <= entries@.len(),
            forall|j: int|
                i <= j < entries@.len() ==> (#[trigger] entries@[j]).0@ != (name@, descriptor@),
        decreases i,
    {
        let entry = &entries[i - 1];
        if entry.0.0 == *name && entry.0.1 == *descriptor {
            return Some(i - 1);
        }
        i = i - 1;
    }
    None
}

/// The official name held in `official`, or `fallback`.
fn official_or(official: &Option<String>, fallback: String) -> (r: String)
    ensures
        r@ == match opt_view(*official) {
            Some(o) => o,
            None => fallback@,
        },
{
    match official {
        Some(o) => o.clone(),
        None => fallback,
    }
}

impl TinyV2Mapping {
    proof fn lemma_rename_fn(&self)
        ensures
            rename_fn(self) == renaming(self@.classes),
    {
        assert(rename_fn(self) =~= renaming(self@.classes));
    }
}

impl ClassRename for TinyV2Mapping {
    open spec fn renamed(&self, class_name: Seq<char>) -> Seq<char> {
        class_image(self@.classes, class_name)
    }

    fn rename_class(&self, class_name: &str) -> (r: String) {
        let key = String::from_str(class_name);
        match find_key(&self.classes, &key) {
            Some(i) => {
                proof {
                    lemma_assoc_last(self.classes@, i as int);
                }
                official_or(&self.classes[i].1.official_name, key)
            },
            None => {
                proof {
                    lemma_assoc_absent(self.classes@, key@);
                }
                key
            },
        }
    }
}

impl Mapping for TinyV2Mapping {
    open spec fn class_target(&self, class_name: Seq<char>) -> Seq<char> {
        class_image(self@.classes, class_name)
    }

    open spec fn method_target(
        &self,
        class_name: Seq<char>,
        method_name: Seq<char>,
        descriptor: Seq<char>,
    ) -> Seq<char> {
        method_image(self@.classes, class_name, method_name, descriptor)
    }

    open spec fn field_target(
        &self,
        class_name: Seq<char>,
        field_name: Seq<char>,
        descriptor: Seq<char>,
    ) -> Seq<char> {
        field_image(self@.classes, class_name, field_name, descriptor)
    }

    fn remap_class(&self, class_name: &str) -> (r: String) {
        self.rename_class(class_name)
    }

    fn remap_method(&self, class_name: &str, method_name: &str, descriptor: &str) -> (r: String) {
        let resolved = remap_descriptor_with(self, descriptor);
        proof {
            self.lemma_rename_fn();
        }
        let key = String::from_str(class_name);
        let name = String::from_str(method_name);
        match find_key(&self.classes, &key) {
            Some(i) => {
                proof {
                    lemma_assoc_last(self.classes@, i as int);
                }
                let methods = &self.classes[i].1.methods;
                match find_member(methods, &name, &resolved) {
                    Some(j) => {
                        proof {
                            lemma_assoc_last(methods@, j as int);
                        }
                        official_or(&methods[j].1.official_name, name)
                    },
                    None => {
                        proof {
                            lemma_assoc_absent(methods@, (name@, resolved@));
                        }
                        name
                    },
                }
            },
            None => {
                proof {
                    lemma_assoc_absent(self.classes@, key@);
                }
                name
            },
        }
    }

    fn remap_field(&self, class_name: &str, field_name: &str, descriptor: &str) -> (r: String) {
        let resolved = remap_descriptor_with(self, descriptor);
        proof {
            self.lemma_rename_fn();
        }
        let key = String::from_str(class_name);
        let name = String::from_str(field_name);
        match find_key(&self.classes, &key) {
            Some(i) => {
                proof {
                    lemma_assoc_last(self.classes@, i as int);
                }
                let fields = &self.classes[i].1.fields;
                match find_member(fields, &name, &resolved) {
                    Some(j) => {
                        proof {
                            lemma_assoc_last(fields@, j as int);
                        }
                        official_or(&fields[j].1.official_name, name)
                    },
                    None => {
                        proof {
                            lemma_assoc_absent(fields@, (name@, resolved@));
                        }
                        name
                    },
                }
            },
            None => {
                proof {
                    lemma_assoc_absent(self.classes@, key@);
                }
                name
            },
        }
    }
}

/// The field at column `i` of a split line, if the line has one.
pub open spec fn field_at(parts: Seq<Seq<char>>, i: int) -> Option<Seq<char>> {
    if 0 <= i < parts.len() {
        Some(parts[i])
    } else {
        None
    }
}

/// The header that a header line gives: the marker `tiny`, at least five
/// tab-separated fields, and decimal major and minor versions; the fields
/// from the fourth on are the namespaces.
pub open spec fn header_of(line: Seq<char>) -> Option<HeaderView> {
    let parts = split_on(line, '\t');
    if parts[0] != "tiny"@ || parts.len() < 5 {
        None
    } else {
        match (usize_of(parts[1]), usize_of(parts[2])) {
            (Some(major), Some(minor)) => Some(
                HeaderView {
                    major_version: major,
                    minor_version: minor,
                    namespaces: parts.subrange(3, parts.len() as int),
                },
            ),
            _ => None,
        }
    }
}

/// The first column at or after `i` that holds `name`.
pub open spec fn position_from(namespaces: Seq<Seq<char>>, name: Seq<char>, i: int) -> Option<int>
    decreases namespaces.len() - i,
{
    if i >= namespaces.len() {
        None
    } else if namespaces[i] == name {
        Some(i)
    } else {
        position_from(namespaces, name, i + 1)
    }
}

/// The column of the first namespace called `name`.
pub open spec fn namespace_offset(namespaces: Seq<Seq<char>>, name: Seq<char>) -> Option<int> {
    position_from(namespaces, name, 0)
}

/// The columns of the `named`, `intermediary` and `official` namespaces, or
/// the first of them that is missing.
pub open spec fn columns_of(namespaces: Seq<Seq<char>>) -> Result<(int, int, int), MappingErrorView> {
    match namespace_offset(namespaces, "named"@) {
        None => Err(MappingErrorView::MissingNamespace("named"@)),
        Some(named) => match namespace_offset(namespaces, "intermediary"@) {
            None => Err(MappingErrorView::MissingNamespace("intermediary"@)),
            Some(intermediary) => match namespace_offset(namespaces, "official"@) {
                None => Err(MappingErrorView::MissingNamespace("official"@)),
                Some(official) => Ok((named, intermediary, official)),
            },
        },
    }
}

/// A class record's entry: its names and no members yet.
pub open spec fn fresh_class(official: Option<Seq<char>>, intermediary: Option<Seq<char>>) -> ClassView {
    ClassView { official, intermediary, methods: Map::empty(), fields: Map::empty() }
}

/// What one record does to the class table and the current class. A class
/// record (`c`) starts a fresh class; a member record (empty first field,
/// non-empty marker) of the current class adds a method (`m`) or field
/// (`f`) keyed by its name and its descriptor resolved through the table so
/// far, ignores a comment (`c`) and refuses other markers; member records
/// without a current class, and other lines, change nothing.
pub open spec fn line_step(
    columns: (int, int, int),
    classes: Map<Seq<char>, ClassView>,
    current: Seq<char>,
    parts: Seq<Seq<char>>,
) -> Result<(Map<Seq<char>, ClassView>, Seq<char>), MappingErrorView> {
    let (named, intermediary, official) = columns;
    if parts[0] == "c"@ {
        match field_at(parts, 1 + named) {
            None => Err(MappingErrorView::MissingClassName),
            Some(name) => Ok(
                (
                    classes.insert(
                        name,
                        fresh_class(field_at(parts, 1 + official), field_at(parts, 1 + intermediary)),
                    ),
                    name,
                ),
            ),
        }
    } else if parts[0].len() == 0 && parts.len() >= 2 && parts[1].len() > 0 && classes.contains_key(
        current,
    ) {
        let kind = parts[1];
        if kind == "m"@ || kind == "f"@ {
            match field_at(parts, 3 + named) {
                None => Err(MappingErrorView::MissingFieldOrMethodName),
                Some(name) => {
                    let key = (name, descriptor_image(renaming(classes), parts[2]));
                    let member = MemberView {
                        official: field_at(parts, 3 + official),
                        intermediary: field_at(parts, 3 + intermediary),
                    };
                    let class = classes[current];
                    let updated = if kind == "m"@ {
                        ClassView { methods: class.methods.insert(key, member), ..class }
                    } else {
                        ClassView { fields: class.fields.insert(key, member), ..class }
                    };
                    Ok((classes.insert(current, updated), current))
                },
            }
        } else if kind == "c"@ {
            Ok((classes, current))
        } else {
            Err(MappingErrorView::UnknownSubsectionType)
        }
    } else {
        Ok((classes, current))
    }
}

/// Blank lines and `#` comment lines carry no record.
pub open spec fn skipped(line: Seq<char>) -> bool {
    line.len() == 0 || line[0] == '#'
}

/// The class table after the records of `lines` from `i` on, or the first
/// error among them.
pub open spec fn run_from(
    columns: (int, int, int),
    lines: Seq<Seq<char>>,
    i: int,
    classes: Map<Seq<char>, ClassView>,
    current: Seq<char>,
) -> Result<Map<Seq<char>, ClassView>, MappingErrorView>
    decreases lines.len() - i,
{
    if i >= lines.len() {
        Ok(classes)
    } else if skipped(lines[i]) {
        run_from(columns, lines, i + 1, classes, current)
    } else {
        match line_step(columns, classes, current, split_on(lines[i], '\t')) {
            Err(e) => Err(e),
            Ok((next, name)) => run_from(columns, lines, i + 1, next, name),
        }
    }
}

/// The mapping that a TinyV2 text describes, or why it describes none.
pub open spec fn text_mapping(text: Seq<char>) -> Result<TinyV2View, MappingErrorView> {
    let lines = text_lines(text);
    if lines.len() == 0 {
        Err(MappingErrorView::InvalidHeader)
    } else {
        match header_of(lines[0]) {
            None => Err(MappingErrorView::InvalidHeader),
            Some(header) => match columns_of(header.namespaces) {
                Err(e) => Err(e),
                Ok(columns) => match run_from(columns, lines, 1, Map::empty(), Seq::empty()) {
                    Err(e) => Err(e),
                    Ok(classes) => Ok(TinyV2View { header, classes }),
                },
            },
        }
    }
}

/// The mapping that the bytes of a TinyV2 file describe, or why they
/// describe none.
pub open spec fn bytes_mapping(bytes: Seq<u8>) -> Result<TinyV2View, MappingErrorView> {
    if !valid_utf8(bytes) {
        Err(MappingErrorView::InvalidEncoding)
    } else {
        text_mapping(decode_utf8(bytes))
    }
}

/// Whether `r` is what loading gives for the outcome `expected`.
pub open spec fn outcome_is(
    r: Result<TinyV2Mapping, MappingError>,
    expected: Result<TinyV2View, MappingErrorView>,
) -> bool {
    match r {
        Ok(m) => m.wf() && expected == Ok::<TinyV2View, MappingErrorView>(m@),
        Err(e) => expected == Err::<TinyV2View, MappingErrorView>(e@),
    }
}

/// The current class is the last entry of the table, when there is one.
pub open spec fn tracks_current(classes: Seq<(String, ClassMapping)>, current: Seq<char>) -> bool {
    classes.len() > 0 ==> classes.last().0@ == current
}

/// The field at column `base + offset` of a split line, as a string.
fn field_string(parts: &Vec<Vec<char>>, base: usize, offset: usize) -> (r: Option<String>)
    ensures
        opt_view(r) == field_at(views(parts@), base + offset),
{
    if offset < parts.len() && parts.len() - offset > base {
        let field = &parts[base + offset];
        let s = string_of(field, 0, field.len());
        assert(field@.subrange(0, field@.len() as int) =~= field@);
        Some(s)
    } else {
        None
    }
}

/// Reads a header line split into characters.
fn header_from_chars(line: &Vec<char>) -> (r: Option<Header>)
    ensures
        match r {
            Some(h) => header_of(line@) == Some(h@),
            None => header_of(line@) == None::<HeaderView>,
        },
{
    let parts = split_chars(line, '\t');
    proof {
        lemma_split_on_nonempty(line@, '\t');
    }
    let ghost ps = views(parts@);
    assert(ps[0] == parts@[0]@);
    if !is_text(&parts[0], "tiny") || parts.len() < 5 {
        return None;
    }
    assert(ps[1] == parts@[1]@ && ps[2] == parts@[2]@);
    let major_version = match parse_usize(&parts[1]) {
        Some(v) => v,
        None => return None,
    };
    let minor_version = match parse_usize(&parts[2]) {
        Some(v) => v,
        None => return None,
    };
    let mut namespaces: Vec<String> = Vec::new();
    let mut i: usize = 3;
    assert(strings_view(namespaces@) =~= ps.subrange(3, 3));
    while i < parts.len()
        invariant
            3 <= i <= parts@.len(),
            ps == views(parts@),
            strings_view(namespaces@) == ps.subrange(3, i as int),
        decreases parts@.len() - i,
    {
        let field = &parts[i];
        let name = string_of(field, 0, field.len());
        assert(field@.subrange(0, field@.len() as int) =~= field@);
        assert(ps[i as int] == field@);
        let ghost prev = namespaces@;
        namespaces.push(name);
        assert(strings_view(namespaces@) =~= strings_view(prev).push(name@));
        i = i + 1;
        assert(strings_view(namespaces@) =~= ps.subrange(3, i as int));
    }
    Some(Header::new(major_version, minor_version, namespaces))
}

/// Reads the header line of a TinyV2 file:
/// `tiny <major> <minor> <namespace> <namespace>...`, separated by tabs.
pub fn parse_header(header_line: &str) -> (r: Option<Header>)
    ensures
        match r {
            Some(h) => header_of(header_line@) == Some(h@),
            None => header_of(header_line@) == None::<HeaderView>,
        },
{
    let line = to_chars(header_line);
    header_from_chars(&line)
}

impl Header {
    /// A header with the given versions and namespaces.
    pub fn new(major_version: usize, minor_version: usize, namespaces: Vec<String>) -> (r: Header)
        ensures
            r.major_version == major_version,
            r.minor_version == minor_version,
            r.namespaces == namespaces,
    {
        Header { major_version, minor_version, namespaces }
    }

    /// The major version.
    pub fn major_version(&self) -> (r: usize)
        ensures
            r == self.major_version,
    {
        self.major_version
    }

    /// The minor version.
    pub fn minor_version(&self) -> (r: usize)
        ensures
            r == self.minor_version,
    {
        self.minor_version
    }

    /// The namespace names, in column order.
    pub fn namespaces(&self) -> (r: &Vec<String>)
        ensures
            r == &self.namespaces,
    {
        &self.namespaces
    }

    /// The column of the first namespace called `name`.
    fn find_namespace_offset(&self, name: &str) -> (r: Option<usize>)
        ensures
            match r {
                Some(i) => namespace_offset(self@.namespaces, name@) == Some(i as int),
                None => namespace_offset(self@.namespaces, name@) == None::<int>,
            },
    {
        let key = String::from_str(name);
        let ghost ns = self@.namespaces;
        let mut i: usize = 0;
        while i < self.namespaces.len()
            invariant
                i <= self.namespaces@.len(),
                ns == self@.namespaces,
                key@ == name@,
                position_from(ns, name@, 0) == position_from(ns, name@, i as int),
            decreases self.namespaces@.len() - i,
        {
            assert(ns[i as int] == self.namespaces@[i as int]@);
            assert(ns.len() == self.namespaces@.len());
            if self.namespaces[i] == key {
                return Some(i);
            }
            i = i + 1;
        }
        None
    }
}

impl MethodMapping {
    /// A method's names in the `official` and `intermediary` namespaces.
    pub fn new(official_name: Option<String>, intermediary_name: Option<String>) -> (r:
        MethodMapping)
        ensures
            r@ == (MemberView {
                official: opt_view(official_name),
                intermediary: opt_view(intermediary_name),
            }),
    {
        MethodMapping { official_name, intermediary_name }
    }

    /// The name in the `official` namespace, if it differs from `named`.
    pub fn official_name(&self) -> (r: &Option<String>)
        ensures
            opt_view(*r) == self@.official,
    {
        &self.official_name
    }

    /// The name in the `intermediary` namespace, if it differs from `named`.
    pub fn intermediary_name(&self) -> (r: &Option<String>)
        ensures
            opt_view(*r) == self@.intermediary,
    {
        &self.intermediary_name
    }
}

impl FieldMapping {
    /// A field's names in the `official` and `intermediary` namespaces.
    pub fn new(official_name: Option<String>, intermediary_name: Option<String>) -> (r:
        FieldMapping)
        ensures
            r@ == (MemberView {
                official: opt_view(official_name),
                intermediary: opt_view(intermediary_name),
            }),
    {
        FieldMapping { official_name, intermediary_name }
    }

    /// The name in the `official` namespace, if it differs from `named`.
    pub fn official_name(&self) -> (r: &Option<String>)
        ensures
            opt_view(*r) == self@.official,
    {
        &self.official_name
    }

    /// The name in the `intermediary` namespace, if it differs from `named`.
    pub fn intermediary_name(&self) -> (r: &Option<String>)
        ensures
            opt_view(*r) == self@.intermediary,
    {
        &self.intermediary_name
    }
}

impl ClassMapping {
    /// A class's names in the other namespaces and its members.
    pub fn new(
        official_name: Option<String>,
        intermediary_name: Option<String>,
        methods: Vec<((String, String), MethodMapping)>,
        fields: Vec<((String, String), FieldMapping)>,
    ) -> (r: ClassMapping)
        ensures
            r@ == (ClassView {
                official: opt_view(official_name),
                intermediary: opt_view(intermediary_name),
                methods: assoc(methods@),
                fields: assoc(fields@),
            }),
    {
        ClassMapping { official_name, intermediary_name, methods, fields }
    }

    /// The name in the `official` namespace, if it differs from `named`.
    pub fn official_name(&self) -> (r: &Option<String>)
        ensures
            opt_view(*r) == self@.official,
    {
        &self.official_name
    }

    /// The name in the `intermediary` namespace, if it differs from `named`.
    pub fn intermediary_name(&self) -> (r: &Option<String>)
        ensures
            opt_view(*r) == self@.intermediary,
    {
        &self.intermediary_name
    }
    /// The methods, keyed by (named name, official descriptor), each key
    /// once in a well-formed class.
    pub fn methods(&self) -> (r: &Vec<((String, String), MethodMapping)>)
        ensures
            assoc(r@) == self@.methods,
            self.wf() ==> unique_keys(r@),
    {
        &self.methods
    }

    /// The fields, keyed by (named name, official descriptor), each key once
    /// in a well-formed class.
    pub fn fields(&self) -> (r: &Vec<((String, String), FieldMapping)>)
        ensures
            assoc(r@) == self@.fields,
            self.wf() ==> unique_keys(r@),
    {
        &self.fields
    }

    /// Records the method or field of a member record, keyed by its name and
    /// the already resolved `descriptor`.
    fn parse_class_members(
        &mut self,
        namespace_named_index: usize,
        namespace_intermediary_index: usize,
        namespace_official_index: usize,
        parts: &Vec<Vec<char>>,
        is_method: bool,
        descriptor: String,
    ) -> (r: Result<(), MappingError>)
        requires
            old(self).wf(),
        ensures
            final(self).wf(),
            match field_at(views(parts@), 3 + namespace_named_index) {
                None => r matches Err(e) && e@ == MappingErrorView::MissingFieldOrMethodName,
                Some(name) => {
                    let key = (name, descriptor@);
                    let member = MemberView {
                        official: field_at(views(parts@), 3 + namespace_official_index),
                        intermediary: field_at(views(parts@), 3 + namespace_intermediary_index),
                    };
                    &&& r is Ok
                    &&& final(self)@ == if is_method {
                        ClassView { methods: old(self)@.methods.insert(key, member), ..old(self)@ }
                    } else {
                        ClassView { fields: old(self)@.fields.insert(key, member), ..old(self)@ }
                    }
                },
            },
    {
        let named_name = match field_string(parts, 3, namespace_named_index) {
            Some(n) => n,
            None => return Err(MappingError::MissingFieldOrMethodName),
        };
        let official_name = field_string(parts, 3, namespace_official_index);
        let intermediary_name = field_string(parts, 3, namespace_intermediary_index);
        if is_method {
            let found = find_member(&self.methods, &named_name, &descriptor);
            let entry = ((named_name, descriptor), MethodMapping::new(official_name, intermediary_name));
            put_last(&mut self.methods, found, entry);
        } else {
            let found = find_member(&self.fields, &named_name, &descriptor);
            let entry = ((named_name, descriptor), FieldMapping::new(official_name, intermediary_name));
            put_last(&mut self.fields, found, entry);
        }
        Ok(())
    }
}

impl Default for ClassMapping {
    /// A class with no other names and no members.
    fn default() -> (r: ClassMapping)
        ensures
            r@ == fresh_class(None, None),
            r.wf(),
    {
        let r = ClassMapping {
            official_name: None,
            intermediary_name: None,
            methods: Vec::new(),
            fields: Vec::new(),
        };
        assert(assoc(Seq::<((String, String), MethodMapping)>::empty()) =~= Map::empty());
        assert(assoc(Seq::<((String, String), FieldMapping)>::empty()) =~= Map::empty());
        r
    }
}

impl TinyV2Mapping {
    /// A mapping with the given header and no classes yet.
    pub fn new(header: Header) -> (r: TinyV2Mapping)
        ensures
            r@ == (TinyV2View { header: header@, classes: Map::empty() }),
            r.wf(),
    {
        TinyV2Mapping { header, classes: Vec::new() }
    }

    /// The header.
    pub fn header(&self) -> (r: &Header)
        ensures
            r@ == self@.header,
    {
        &self.header
    }

    /// The classes, keyed by their names in the `named` namespace, each name
    /// once in a well-formed mapping.
    pub fn classes(&self) -> (r: &Vec<(String, ClassMapping)>)
        ensures
            assoc(r@) == self@.classes,
            self.wf() ==> unique_keys(r@),
    {
        &self.classes
    }

    /// The columns of the `named`, `intermediary` and `official` namespaces.
    fn extract_namespaces(&self) -> (r: Result<(usize, usize, usize), MappingError>)
        ensures
            match r {
                Ok((n, i, o)) => columns_of(self@.header.namespaces) == Ok::<
                    (int, int, int),
                    MappingErrorView,
                >((n as int, i as int, o as int)),
                Err(e) => columns_of(self@.header.namespaces) == Err::<
                    (int, int, int),
                    MappingErrorView,
                >(e@),
            },
    {
        let named = match self.header.find_namespace_offset("named") {
            Some(i) => i,
            None => return Err(MappingError::MissingNamespace(String::from_str("named"))),
        };
        let intermediary = match self.header.find_namespace_offset("intermediary") {
            Some(i) => i,
            None => return Err(MappingError::MissingNamespace(String::from_str("intermediary"))),
        };
        let official = match self.header.find_namespace_offset("official") {
            Some(i) => i,
            None => return Err(MappingError::MissingNamespace(String::from_str("official"))),
        };
        Ok((named, intermediary, official))
    }

    /// Handles a class record: a fresh class becomes the current one.
    fn parse_class(
        &mut self,
        namespace_named_index: usize,
        namespace_intermediary_index: usize,
        namespace_official_index: usize,
        current_class_name: &mut String,
        parts: &Vec<Vec<char>>,
    ) -> (r: Result<(), MappingError>)
        requires
            old(self).wf(),
        ensures
            final(self).header == old(self).header,
            final(self).wf(),
            match field_at(views(parts@), 1 + namespace_named_index) {
                None => r matches Err(e) && e@ == MappingErrorView::MissingClassName,
                Some(name) => {
                    &&& r is Ok
                    &&& final(self)@.classes == old(self)@.classes.insert(
                        name,
                        fresh_class(
                            field_at(views(parts@), 1 + namespace_official_index),
                            field_at(views(parts@), 1 + namespace_intermediary_index),
                        ),
                    )
                    &&& final(current_class_name)@ == name
                    &&& tracks_current(final(self).classes@, final(current_class_name)@)
                },
            },
    {
        let class_name = match field_string(parts, 1, namespace_named_index) {
            Some(n) => n,
            None => return Err(MappingError::MissingClassName),
        };
        let official_name = field_string(parts, 1, namespace_official_index);
        let intermediary_name = field_string(parts, 1, namespace_intermediary_index);
        *current_class_name = class_name.clone();
        let ghost before = self.classes@;
        let class = ClassMapping::default();
        let class = ClassMapping { official_name, intermediary_name, ..class };
        let found = find_key(&self.classes, &class_name);
        put_last(&mut self.classes, found, (class_name, class));
        assert forall|i: int| 0 <= i < self.classes@.len() implies (
        #[trigger] self.classes@[i]).1.wf() by {
            if i < self.classes@.len() - 1 {
                match found {
                    Some(k) => {
                        let j = if i < k { i } else { i + 1 };
                        assert(self.classes@[i] == before[j]);
                    },
                    None => {
                        assert(self.classes@[i] == before[i]);
                    },
                }
            }
        }
        Ok(())
    }

    /// Handles one non-blank, non-comment line of the file.
    fn parse_line(
        &mut self,
        namespace_named_index: usize,
        namespace_intermediary_index: usize,
        namespace_official_index: usize,
        current_class_name: &mut String,
        line: &Vec<char>,
    ) -> (r: Result<(), MappingError>)
        requires
            tracks_current(old(self).classes@, old(current_class_name)@),
            old(self).wf(),
        ensures
            final(self).header == old(self).header,
            final(self).wf(),
            match line_step(
                (
                    namespace_named_index as int,
                    namespace_intermediary_index as int,
                    namespace_official_index as int,
                ),
                old(self)@.classes,
                old(current_class_name)@,
                split_on(line@, '\t'),
            ) {
                Ok((classes, name)) => {
                    &&& r is Ok
                    &&& final(self)@.classes == classes
                    &&& final(current_class_name)@ == name
                    &&& tracks_current(final(self).classes@, final(current_class_name)@)
                },
                Err(e) => r matches Err(x) && x@ == e,
            },
    {
        let parts = split_chars(line, '\t');
        proof {
            lemma_split_on_nonempty(line@, '\t');
        }
        let ghost ps = views(parts@);
        assert(ps[0] == parts@[0]@);
        if is_text(&parts[0], "c") {
            return self.parse_class(
                namespace_named_index,
                namespace_intermediary_index,
                namespace_official_index,
                current_class_name,
                &parts,
            );
        }
        if parts[0].len() == 0 && parts.len() >= 2 && parts[1].len() > 0 && self.classes.len() > 0 {
            assert(ps[1] == parts@[1]@);
            let ghost classes = self@.classes;
            assert(classes.contains_key(current_class_name@));
            let is_method = is_text(&parts[1], "m");
            if is_method || is_text(&parts[1], "f") {
                let descriptor = if parts.len() > 2 {
                    let field = &parts[2];
                    let written = string_of(field, 0, field.len());
                    assert(field@.subrange(0, field@.len() as int) =~= ps[2]);
                    remap_descriptor_with(self, written.as_str())
                } else {
                    String::new()
                };
                proof {
                    self.lemma_rename_fn();
                }
                let ghost before = self.classes@;
                let mut entry = self.classes.pop().unwrap();
                assert(before[before.len() - 1] == entry);
                assert(entry.0@ == current_class_name@);
                assert(classes[current_class_name@] == entry.1@);
                let res = entry.1.parse_class_members(
                    namespace_named_index,
                    namespace_intermediary_index,
                    namespace_official_index,
                    &parts,
                    is_method,
                    descriptor,
                );
                self.classes.push(entry);
                assert(self.classes@ =~= before.update(before.len() - 1, entry));
                assert(self.classes@.drop_last() =~= before.drop_last());
                assert(self@.classes =~= assoc(before.drop_last()).insert(entry.0@, entry.1@));
                proof {
                    if res is Ok {
                        assert(self@.classes =~= classes.insert(current_class_name@, entry.1@));
                    }
                }
                res
            } else if is_text(&parts[1], "c") {
                Ok(())
            } else {
                Err(MappingError::UnknownSubsectionType)
            }
        } else {
            Ok(())
        }
    }

    /// Loads a mapping from its text.
    fn load_text(text: &Vec<char>) -> (r: Result<TinyV2Mapping, MappingError>)
        ensures
            outcome_is(r, text_mapping(text@)),
    {
        let lines = lines_of(text);
        let ghost ls = views(lines@);
        if lines.len() == 0 {
            return Err(MappingError::InvalidHeader);
        }
        assert(ls[0] == lines@[0]@);
        let header = match header_from_chars(&lines[0]) {
            Some(h) => h,
            None => return Err(MappingError::InvalidHeader),
        };
        let ghost header_view = header@;
        let mut mapping = TinyV2Mapping { header, classes: Vec::new() };
        assert(mapping@.classes =~= Map::empty());
        let (named, intermediary, official) = match mapping.extract_namespaces() {
            Ok(c) => c,
            Err(e) => return Err(e),
        };
        let ghost columns = (named as int, intermediary as int, official as int);
        let mut current = String::new();
        let mut i: usize = 1;
        while i < lines.len()
            invariant
                1 <= i <= lines@.len(),
                ls == views(lines@),
                ls == text_lines(text@),
                header_of(ls[0]) == Some(header_view),
                columns_of(header_view.namespaces) == Ok::<(int, int, int), MappingErrorView>(
                    columns,
                ),
                columns == (named as int, intermediary as int, official as int),
                mapping@.header == header_view,
                run_from(columns, ls, 1, Map::empty(), Seq::empty()) == run_from(
                    columns,
                    ls,
                    i as int,
                    mapping@.classes,
                    current@,
                ),
                tracks_current(mapping.classes@, current@),
                mapping.wf(),
            decreases lines@.len() - i,
        {
            let line = &lines[i];
            assert(ls[i as int] == line@);
            if line.len() == 0 || line[0] == '#' {
                i = i + 1;
                continue;
            }
            match mapping.parse_line(named, intermediary, official, &mut current, line) {
                Ok(()) => {},
                Err(e) => return Err(e),
            }
            i = i + 1;
        }
        Ok(mapping)
    }
}

impl MappingLoader for TinyV2Mapping {
    open spec fn loads_as(bytes: Seq<u8>, r: Result<Self, MappingError>) -> bool {
        outcome_is(r, bytes_mapping(bytes))
    }

    fn load(bytes: &[u8]) -> (r: Result<Self, MappingError>) {
        match utf8_text(bytes) {
            None => Err(MappingError::InvalidEncoding),
            Some(text) => {
                proof {
                    encode_utf8_decode_utf8(text@);
                }
                let chars = to_chars(text);
                TinyV2Mapping::load_text(&chars)
            },
        }
    }
}

/// A header line written from a major and a minor version in decimal and
/// two or more namespace names, none holding a tab, reads back as exactly
/// those versions and those namespaces, in the same column order.
pub proof fn lemma_header_round_trip(major: usize, minor: usize, namespaces: Seq<Seq<char>>)
    requires
        namespaces.len() >= 2,
        forall|i: int, j: int|
            0 <= i < namespaces.len() && 0 <= j < namespaces[i].len() ==> namespaces[i][j] != '\t',
    ensures
        header_of(
            join_with(
                seq!["tiny"@, decimal(major as nat), decimal(minor as nat)] + namespaces,
                '\t',
            ),
        ) == Some(HeaderView { major_version: major, minor_version: minor, namespaces }),
{
    reveal_strlit("tiny");
    let fields = seq!["tiny"@, decimal(major as nat), decimal(minor as nat)] + namespaces;
    lemma_decimal_round_trip(major);
    lemma_decimal_round_trip(minor);
    assert forall|i: int, j: int|
        0 <= i < fields.len() && 0 <= j < fields[i].len() implies fields[i][j] != '\t' by {
        if i >= 3 {
            assert(fields[i] == namespaces[i - 3]);
        } else if i == 1 {
            assert('0' <= decimal(major as nat)[j] <= '9');
        } else if i == 2 {
            assert('0' <= decimal(minor as nat)[j] <= '9');
        }
    }
    lemma_split_join(fields, '\t');
    assert(fields.subrange(3, fields.len() as int) =~= namespaces);
}

/// A class that the table does not hold keeps its name.
pub proof fn lemma_unknown_class_kept(m: &TinyV2Mapping, class_name: Seq<char>)
    requires
        !m@.classes.contains_key(class_name),
    ensures
        m.class_target(class_name) == class_name,
{
}

} // verus!
