//! The mapping abstraction: errors, the remapping queries, and the JVM
//! descriptor remapper that every mapping gets from its class lookup.
use vstd::prelude::*;

use crate::text::{push_char, push_chars, string_of, to_chars};

verus! {

/// Errors that can occur while loading a mapping.
#[derive(Debug, PartialEq, Eq)]
pub enum MappingError {
    /// Reading the mapping's source failed; holds the reason.
    Io(String),
    /// The input is not valid UTF-8.
    InvalidEncoding,
    /// The header line is missing or malformed.
    InvalidHeader,
    /// A required namespace is absent from the header; holds its name.
    MissingNamespace(String),
    /// A class record has no name in the `named` column.
    MissingClassName,
    /// A method or field record has no name in the `named` column.
    MissingFieldOrMethodName,
    /// A member record's subsection marker is not `m`, `f` or `c`.
    UnknownSubsectionType,
}

/// The mathematical value of a [`MappingError`].
pub enum MappingErrorView {
    Io(Seq<char>),
    InvalidEncoding,
    InvalidHeader,
    MissingNamespace(Seq<char>),
    MissingClassName,
    MissingFieldOrMethodName,
    UnknownSubsectionType,
}

impl View for MappingError {
    type V = MappingErrorView;

    open spec fn view(&self) -> MappingErrorView {
        match self {
            MappingError::Io(m) => MappingErrorView::Io(m@),
            MappingError::InvalidEncoding => MappingErrorView::InvalidEncoding,
            MappingError::InvalidHeader => MappingErrorView::InvalidHeader,
            MappingError::MissingNamespace(n) => MappingErrorView::MissingNamespace(n@),
            MappingError::MissingClassName => MappingErrorView::MissingClassName,
            MappingError::MissingFieldOrMethodName => MappingErrorView::MissingFieldOrMethodName,
            MappingError::UnknownSubsectionType => MappingErrorView::UnknownSubsectionType,
        }
    }
}

/// A translation of class, method and field names from the `named`
/// namespace into the `official` one. Queries never fail: where nothing is
/// known, the name asked about comes back unchanged.
pub trait Mapping {
    /// The official name of the class named `class_name`.
    spec fn class_target(&self, class_name: Seq<char>) -> Seq<char>;

    /// The official name of method `method_name`, with the named-namespace
    /// descriptor `descriptor`, of class `class_name`.
    spec fn method_target(
        &self,
        class_name: Seq<char>,
        method_name: Seq<char>,
        descriptor: Seq<char>,
    ) -> Seq<char>;

    /// The official name of field `field_name`, with the named-namespace
    /// descriptor `descriptor`, of class `class_name`.
    spec fn field_target(
        &self,
        class_name: Seq<char>,
        field_name: Seq<char>,
        descriptor: Seq<char>,
    ) -> Seq<char>;

    /// Remaps a class name (e.g. `net/minecraft/client/MinecraftClient`).
    fn remap_class(&self, class_name: &str) -> (r: String)
        ensures
            r@ == self.class_target(class_name@),
    ;

    /// Remaps a method name, given its owner and its descriptor
    /// (e.g. `()Ljava/lang/String;`).
    fn remap_method(&self, class_name: &str, method_name: &str, descriptor: &str) -> (r: String)
        ensures
            r@ == self.method_target(class_name@, method_name@, descriptor@),
    ;

    /// Remaps a field name, given its owner and its descriptor.
    fn remap_field(&self, class_name: &str, field_name: &str, descriptor: &str) -> (r: String)
        ensures
            r@ == self.field_target(class_name@, field_name@, descriptor@),
    ;
}

/// The class renaming of a mapping, as a function.
pub open spec fn class_fn<M: Mapping + ?Sized>(m: &M) -> spec_fn(Seq<char>) -> Seq<char> {
    |n: Seq<char>| m.class_target(n)
}

/// A renaming of class names, which the descriptor remapper applies.
pub trait ClassRename {
    /// The new name of the class named `class_name`.
    spec fn renamed(&self, class_name: Seq<char>) -> Seq<char>;

    /// Renames one class.
    fn rename_class(&self, class_name: &str) -> (r: String)
        ensures
            r@ == self.renamed(class_name@),
    ;
}

/// A class renaming, as a function.
pub open spec fn rename_fn<R: ClassRename + ?Sized>(r: &R) -> spec_fn(Seq<char>) -> Seq<char> {
    |n: Seq<char>| r.renamed(n)
}

/// An object type `L<name>;` with its class name renamed; anything else
/// unchanged.
pub open spec fn object_image(rename: spec_fn(Seq<char>) -> Seq<char>, d: Seq<char>) -> Seq<char> {
    if d.len() >= 2 && d[0] == 'L' {
        seq!['L'] + rename(d.subrange(1, d.len() - 1)) + seq![';']
    } else {
        d
    }
}

/// One character of the left-to-right scan over a method descriptor. The
/// state is the output so far and the pending object type, which an `L`
/// opens and a `;` closes.
pub open spec fn scan_step(
    rename: spec_fn(Seq<char>) -> Seq<char>,
    state: (Seq<char>, Seq<char>),
    ch: char,
) -> (Seq<char>, Seq<char>) {
    let (out, pending) = state;
    if ch == '(' || ch == ')' {
        (out.push(ch), pending)
    } else if ch == 'L' {
        (out, pending.push(ch))
    } else if ch == ';' {
        (out + object_image(rename, pending.push(ch)), Seq::empty())
    } else if pending.len() == 0 {
        (out.push(ch), pending)
    } else {
        (out, pending.push(ch))
    }
}

/// The scan state after all of `d`.
pub open spec fn scan(
    rename: spec_fn(Seq<char>) -> Seq<char>,
    d: Seq<char>,
) -> (Seq<char>, Seq<char>)
    decreases d.len(),
{
    if d.len() == 0 {
        (Seq::empty(), Seq::empty())
    } else {
        scan_step(rename, scan(rename, d.drop_last()), d.last())
    }
}

/// A JVM type descriptor with every class name in it renamed: array types
/// keep their `[` and remap their element type, method descriptors are
/// scanned left to right, object types are renamed, and anything else is
/// returned unchanged.
pub open spec fn descriptor_image(
    rename: spec_fn(Seq<char>) -> Seq<char>,
    d: Seq<char>,
) -> Seq<char>
    decreases d.len(),
{
    if d.len() > 0 && d[0] == '[' {
        seq!['['] + descriptor_image(rename, d.drop_first())
    } else if d.len() > 0 && d[0] == '(' {
        scan(rename, d).0
    } else {
        object_image(rename, d)
    }
}

/// Descriptor remapping for every [`Mapping`].
pub trait MappingExt: Mapping {
    /// Remaps every class name inside a descriptor, e.g.
    /// `(Lnet/minecraft/client/MinecraftClient;)V`.
    fn remap_descriptor(&self, descriptor: &str) -> (r: String)
        ensures
            r@ == descriptor_image(class_fn(self), descriptor@),
    ;
}

/// Appends `object_image` of `d[from..to]` to `out`.
fn push_object_image<R: ClassRename + ?Sized>(
    m: &R,
    d: &Vec<char>,
    from: usize,
    to: usize,
    out: &mut String,
)
    requires
        from <= to <= d@.len(),
    ensures
        final(out)@ == old(out)@ + object_image(rename_fn(m), d@.subrange(from as int, to as int)),
{
    let ghost c = d@.subrange(from as int, to as int);
    if to - from >= 2 && d[from] == 'L' {
        let name = string_of(d, from + 1, to - 1);
        assert(name@ =~= c.subrange(1, c.len() - 1));
        let target = m.rename_class(name.as_str());
        push_char(out, 'L');
        out.append(target.as_str());
        push_char(out, ';');
        assert(out@ =~= old(out)@ + object_image(rename_fn(m), c));
    } else {
        push_chars(out, d, from, to);
    }
}

/// Appends the scan of the method descriptor `d[from..]` to `out`.
fn push_method_image<R: ClassRename + ?Sized>(m: &R, d: &Vec<char>, from: usize, out: &mut String)
    requires
        from <= d@.len(),
    ensures
        final(out)@ == old(out)@ + scan(rename_fn(m), d@.subrange(from as int, d@.len() as int)).0,
{
    let ghost f = rename_fn(m);
    let mut pending: Vec<char> = Vec::new();
    let mut j: usize = from;
    assert(d@.subrange(from as int, from as int) =~= Seq::<char>::empty());
    assert(out@ =~= old(out)@ + scan(f, d@.subrange(from as int, from as int)).0);
    while j < d.len()
        invariant
            from <= j <= d@.len(),
            f == rename_fn(m),
            out@ == old(out)@ + scan(f, d@.subrange(from as int, j as int)).0,
            pending@ == scan(f, d@.subrange(from as int, j as int)).1,
        decreases d@.len() - j,
    {
        assert(d@.subrange(from as int, j + 1).drop_last() =~= d@.subrange(from as int, j as int));
        let ch = d[j];
        if ch == '(' || ch == ')' {
            push_char(out, ch);
        } else if ch == 'L' {
            pending.push(ch);
        } else if ch == ';' {
            pending.push(ch);
            let n = pending.len();
            push_object_image(m, &pending, 0, n, out);
            assert(pending@.subrange(0, n as int) =~= pending@);
            pending = Vec::new();
        } else if pending.len() == 0 {
            push_char(out, ch);
        } else {
            pending.push(ch);
        }
        j = j + 1;
        assert(out@ =~= old(out)@ + scan(f, d@.subrange(from as int, j as int)).0);
        assert(pending@ =~= scan(f, d@.subrange(from as int, j as int)).1);
    }
}

/// Remaps every class name inside `descriptor` through `renamer`.
pub fn remap_descriptor_with<R: ClassRename + ?Sized>(renamer: &R, descriptor: &str) -> (r: String)
    ensures
        r@ == descriptor_image(rename_fn(renamer), descriptor@),
{
    let ghost f = rename_fn(renamer);
    let d = to_chars(descriptor);
    let n = d.len();
    let mut out = String::new();
    let mut i: usize = 0;
    assert(d@.subrange(0, n as int) =~= d@);
    while i < n && d[i] == '['
        invariant
            i <= n == d@.len(),
            f == rename_fn(renamer),
            descriptor_image(f, d@) == out@ + descriptor_image(
                f,
                d@.subrange(i as int, n as int),
            ),
        decreases n - i,
    {
        let ghost rest = d@.subrange(i as int, n as int);
        assert(rest.drop_first() =~= d@.subrange(i + 1, n as int));
        push_char(&mut out, '[');
        i = i + 1;
        assert(out@ + descriptor_image(f, d@.subrange(i as int, n as int)) =~= out@.drop_last()
            + descriptor_image(f, rest));
    }
    if i < n && d[i] == '(' {
        push_method_image(renamer, &d, i, &mut out);
    } else {
        push_object_image(renamer, &d, i, n, &mut out);
    }
    out
}

/// A [`Mapping`] seen as a class renaming.
struct ByMapping<'a, M: ?Sized> {
    mapping: &'a M,
}

impl<'a, M: Mapping + ?Sized> ClassRename for ByMapping<'a, M> {
    closed spec fn renamed(&self, class_name: Seq<char>) -> Seq<char> {
        self.mapping.class_target(class_name)
    }

    fn rename_class(&self, class_name: &str) -> (r: String) {
        self.mapping.remap_class(class_name)
    }
}

impl<T: Mapping> MappingExt for T {
    fn remap_descriptor(&self, descriptor: &str) -> (r: String) {
        let by = ByMapping { mapping: self };
        let r = remap_descriptor_with(&by, descriptor);
        assert(rename_fn(&by) =~= class_fn(self));
        r
    }
}

/// Loading a mapping from the bytes of a mapping file.
pub trait MappingLoader: Sized + Mapping {
    /// Whether `r` is what loading `bytes` gives.
    spec fn loads_as(bytes: Seq<u8>, r: Result<Self, MappingError>) -> bool;

    /// Loads a mapping from the contents of a mapping file.
    fn load(bytes: &[u8]) -> (r: Result<Self, MappingError>)
        ensures
            Self::loads_as(bytes@, r),
    ;
}

/// A descriptor without class references (no `L` anywhere) is left
/// unchanged by every renaming; remapping it again changes nothing either.
pub proof fn lemma_no_class_reference_unchanged(
    rename: spec_fn(Seq<char>) -> Seq<char>,
    d: Seq<char>,
)
    requires
        forall|i: int| 0 <= i < d.len() ==> d[i] != 'L',
    ensures
        descriptor_image(rename, d) == d,
        descriptor_image(rename, descriptor_image(rename, d)) == descriptor_image(rename, d),
    decreases d.len(),
{
    if d.len() > 0 && d[0] == '[' {
        lemma_no_class_reference_unchanged(rename, d.drop_first());
        assert(seq!['['] + d.drop_first() =~= d);
    } else if d.len() > 0 && d[0] == '(' {
        lemma_scan_plain(rename, Seq::empty(), Seq::empty(), d);
        assert(Seq::<char>::empty() + d =~= d);
    }
}

/// The scan state after one more character.
proof fn lemma_scan_push(rename: spec_fn(Seq<char>) -> Seq<char>, s: Seq<char>, c: char)
    ensures
        scan(rename, s.push(c)) == scan_step(rename, scan(rename, s), c),
{
    assert(s.push(c).drop_last() =~= s);
}

/// With nothing pending, characters other than `L` are copied to the
/// output and leave nothing pending.
proof fn lemma_scan_plain(
    rename: spec_fn(Seq<char>) -> Seq<char>,
    s: Seq<char>,
    out: Seq<char>,
    u: Seq<char>,
)
    requires
        scan(rename, s) == (out, Seq::<char>::empty()),
        forall|i: int| 0 <= i < u.len() ==> u[i] != 'L',
    ensures
        scan(rename, s + u) == (out + u, Seq::<char>::empty()),
    decreases u.len(),
{
    if u.len() == 0 {
        assert(s + u =~= s);
        assert(out + u =~= out);
    } else {
        let v = u.drop_last();
        lemma_scan_plain(rename, s, out, v);
        assert(s + u =~= (s + v).push(u.last()));
        lemma_scan_push(rename, s + v, u.last());
        assert(object_image(rename, seq![';']) == seq![';']);
        assert(Seq::<char>::empty().push(';') =~= seq![';']);
        assert(out + u =~= (out + v).push(u.last()));
        assert((out + v) + seq![';'] =~= (out + v).push(';'));
    }
}

/// While an object type is pending, characters other than `;`, `(` and `)`
/// join it.
proof fn lemma_scan_pending(
    rename: spec_fn(Seq<char>) -> Seq<char>,
    s: Seq<char>,
    out: Seq<char>,
    pending: Seq<char>,
    u: Seq<char>,
)
    requires
        scan(rename, s) == (out, pending),
        pending.len() > 0,
        forall|i: int| 0 <= i < u.len() ==> u[i] != ';' && u[i] != '(' && u[i] != ')',
    ensures
        scan(rename, s + u) == (out, pending + u),
    decreases u.len(),
{
    if u.len() == 0 {
        assert(s + u =~= s);
        assert(pending + u =~= pending);
    } else {
        let v = u.drop_last();
        lemma_scan_pending(rename, s, out, pending, v);
        assert(s + u =~= (s + v).push(u.last()));
        lemma_scan_push(rename, s + v, u.last());
        assert(pending + u =~= (pending + v).push(u.last()));
    }
}

/// A primitive field type letter.
pub open spec fn is_primitive(c: char) -> bool {
    c == 'B' || c == 'C' || c == 'D' || c == 'F' || c == 'I' || c == 'J' || c == 'S' || c == 'Z'
}

/// A field type: any number of `[` before a primitive letter or an object
/// type `L<name>;` whose name holds no `;`, `(` or `)`.
pub open spec fn is_field_type(t: Seq<char>) -> bool
    decreases t.len(),
{
    if t.len() > 0 && t[0] == '[' {
        is_field_type(t.drop_first())
    } else {
        (t.len() == 1 && is_primitive(t[0])) || (t.len() >= 2 && t[0] == 'L' && t.last() == ';'
            && forall|i: int|
            1 <= i < t.len() - 1 ==> t[i] != ';' && t[i] != '(' && t[i] != ')')
    }
}

/// The descriptors of `ts`, one after another.
pub open spec fn concat(ts: Seq<Seq<char>>) -> Seq<char>
    decreases ts.len(),
{
    if ts.len() == 0 {
        Seq::empty()
    } else {
        concat(ts.drop_last()) + ts.last()
    }
}

/// With nothing pending, a field type is remapped on its own.
proof fn lemma_scan_field_type(
    rename: spec_fn(Seq<char>) -> Seq<char>,
    s: Seq<char>,
    out: Seq<char>,
    t: Seq<char>,
)
    requires
        scan(rename, s) == (out, Seq::<char>::empty()),
        is_field_type(t),
    ensures
        scan(rename, s + t) == (out + descriptor_image(rename, t), Seq::<char>::empty()),
    decreases t.len(),
{
    if t.len() > 0 && t[0] == '[' {
        lemma_scan_push(rename, s, '[');
        lemma_scan_field_type(rename, s.push('['), out.push('['), t.drop_first());
        assert(s.push('[') + t.drop_first() =~= s + t);
        assert(out.push('[') + descriptor_image(rename, t.drop_first()) =~= out + (seq!['[']
            + descriptor_image(rename, t.drop_first())));
    } else if t.len() == 1 {
        lemma_scan_push(rename, s, t[0]);
        assert(s.push(t[0]) =~= s + t);
        assert(out.push(t[0]) =~= out + t);
    } else {
        let name = t.subrange(1, t.len() - 1);
        lemma_scan_push(rename, s, 'L');
        assert(Seq::<char>::empty().push('L') =~= seq!['L']);
        lemma_scan_pending(rename, s.push('L'), out, seq!['L'], name);
        lemma_scan_push(rename, s.push('L') + name, ';');
        assert((s.push('L') + name).push(';') =~= s + t);
        assert((seq!['L'] + name).push(';') =~= t);
    }
}

/// With nothing pending, a run of field types is remapped one by one.
proof fn lemma_scan_arguments(
    rename: spec_fn(Seq<char>) -> Seq<char>,
    s: Seq<char>,
    out: Seq<char>,
    args: Seq<Seq<char>>,
)
    requires
        scan(rename, s) == (out, Seq::<char>::empty()),
        forall|i: int| 0 <= i < args.len() ==> is_field_type(#[trigger] args[i]),
    ensures
        scan(rename, s + concat(args)) == (out + concat(
            args.map_values(|a: Seq<char>| descriptor_image(rename, a)),
        ), Seq::<char>::empty()),
    decreases args.len(),
{
    let images = args.map_values(|a: Seq<char>| descriptor_image(rename, a));
    if args.len() == 0 {
        assert(s + concat(args) =~= s);
        assert(out + concat(images) =~= out);
    } else {
        let front = args.drop_last();
        assert(front.map_values(|a: Seq<char>| descriptor_image(rename, a)) =~= images.drop_last());
        lemma_scan_arguments(rename, s, out, front);
        assert(is_field_type(args[args.len() - 1]));
        lemma_scan_field_type(rename, s + concat(front), out + concat(images.drop_last()), args.last());
        assert(s + concat(front) + args.last() =~= s + concat(args));
        assert(out + concat(images.drop_last()) + descriptor_image(rename, args.last()) =~= out
            + concat(images));
    }
}

/// A method descriptor whose arguments mix primitive, array and object
/// types is remapped argument by argument: each argument is remapped on
/// its own, in the same order, and so is the return type.
pub proof fn lemma_method_arguments(
    rename: spec_fn(Seq<char>) -> Seq<char>,
    args: Seq<Seq<char>>,
    ret: Seq<char>,
)
    requires
        forall|i: int| 0 <= i < args.len() ==> is_field_type(#[trigger] args[i]),
        is_field_type(ret) || ret == seq!['V'],
    ensures
        descriptor_image(rename, seq!['('] + concat(args) + seq![')'] + ret) == seq!['('] + concat(
            args.map_values(|a: Seq<char>| descriptor_image(rename, a)),
        ) + seq![')'] + descriptor_image(rename, ret),
{
    let images = concat(args.map_values(|a: Seq<char>| descriptor_image(rename, a)));
    let e = Seq::<char>::empty();
    let d = seq!['('] + concat(args) + seq![')'] + ret;
    lemma_scan_push(rename, e, '(');
    assert(e.push('(') =~= seq!['(']);
    lemma_scan_arguments(rename, seq!['('], seq!['('], args);
    lemma_scan_push(rename, seq!['('] + concat(args), ')');
    let before_ret = (seq!['('] + concat(args)).push(')');
    assert(before_ret =~= seq!['('] + concat(args) + seq![')']);
    assert((seq!['('] + images).push(')') =~= seq!['('] + images + seq![')']);
    if is_field_type(ret) {
        lemma_scan_field_type(rename, before_ret, seq!['('] + images + seq![')'], ret);
    } else {
        lemma_scan_push(rename, before_ret, 'V');
        assert(before_ret.push('V') =~= before_ret + ret);
        assert((seq!['('] + images + seq![')']).push('V') =~= seq!['('] + images + seq![')'] + ret);
    }
    assert(d[0] == '(');
}

/// Array prefixes are kept: `[` repeated `k` times before `L<name>;` remaps
/// to as many `[` before the remapped object type (`[[L<name>;` gets exactly
/// two).
pub proof fn lemma_nested_array(rename: spec_fn(Seq<char>) -> Seq<char>, k: nat, name: Seq<char>)
    ensures
        descriptor_image(rename, Seq::new(k, |i: int| '[') + (seq!['L'] + name + seq![';']))
            == Seq::new(k, |i: int| '[') + (seq!['L'] + rename(name) + seq![';']),
    decreases k,
{
    let object = seq!['L'] + name + seq![';'];
    let d = Seq::new(k, |i: int| '[') + object;
    if k == 0 {
        assert(d =~= object);
        assert(object.subrange(1, object.len() - 1) =~= name);
        assert(Seq::new(0, |i: int| '[') + (seq!['L'] + rename(name) + seq![';']) =~= seq!['L']
            + rename(name) + seq![';']);
    } else {
        lemma_nested_array(rename, (k - 1) as nat, name);
        assert(d.drop_first() =~= Seq::new((k - 1) as nat, |i: int| '[') + object);
        assert(d[0] == '[');
        assert(seq!['['] + (Seq::new((k - 1) as nat, |i: int| '[') + (seq!['L'] + rename(name)
            + seq![';'])) =~= Seq::new(k, |i: int| '[') + (seq!['L'] + rename(name) + seq![';']));
    }
}

} // verus!
