//! Character-level helpers: conversions between `str`, `String` and
//! `Vec<char>`, splitting on a delimiter, line splitting and decimal numbers.
use vstd::prelude::*;
use vstd::utf8::valid_utf8;
use vstd::string::StringSliceAdditionalSpecFns;

verus! {

/// The pieces of `s` between occurrences of `c`, as `str::split` yields them:
/// there is always at least one piece, and a trailing delimiter yields a
/// trailing empty piece.
pub open spec fn split_on(s: Seq<char>, c: char) -> Seq<Seq<char>>
    decreases s.len(),
{
    if s.len() == 0 {
        seq![Seq::empty()]
    } else {
        let rest = split_on(s.drop_last(), c);
        if s.last() == c {
            rest.push(Seq::empty())
        } else {
            rest.update(rest.len() - 1, rest.last().push(s.last()))
        }
    }
}

pub proof fn lemma_split_on_nonempty(s: Seq<char>, c: char)
    ensures
        split_on(s, c).len() >= 1,
    decreases s.len(),
{
    if s.len() > 0 {
        lemma_split_on_nonempty(s.drop_last(), c);
    }
}

/// The fields joined with `c` between them.
pub open spec fn join_with(fields: Seq<Seq<char>>, c: char) -> Seq<char>
    decreases fields.len(),
{
    if fields.len() <= 1 {
        if fields.len() == 0 {
            Seq::empty()
        } else {
            fields[0]
        }
    } else {
        join_with(fields.drop_last(), c).push(c) + fields.last()
    }
}

/// Characters other than the delimiter extend the last piece.
proof fn lemma_split_on_extend(s: Seq<char>, c: char, u: Seq<char>)
    requires
        forall|i: int| 0 <= i < u.len() ==> u[i] != c,
    ensures
        split_on(s + u, c) == split_on(s, c).drop_last().push(split_on(s, c).last() + u),
    decreases u.len(),
{
    lemma_split_on_nonempty(s, c);
    let ps = split_on(s, c);
    if u.len() == 0 {
        assert(s + u =~= s);
        assert(ps.last() + u =~= ps.last());
        assert(ps.drop_last().push(ps.last()) =~= ps);
    } else {
        let v = u.drop_last();
        lemma_split_on_extend(s, c, v);
        assert((s + u).drop_last() =~= s + v);
        assert((s + u).last() == u.last());
        lemma_split_on_nonempty(s + v, c);
        let qs = split_on(s + v, c);
        assert(qs.update(qs.len() - 1, qs.last().push(u.last())) =~= ps.drop_last().push(
            ps.last() + u,
        )) by {
            assert(ps.last() + v + seq![u.last()] =~= ps.last() + u);
            assert((ps.last() + v).push(u.last()) =~= ps.last() + u);
        }
    }
}

/// Splitting undoes joining, when no field holds the delimiter.
pub proof fn lemma_split_join(fields: Seq<Seq<char>>, c: char)
    requires
        fields.len() >= 1,
        forall|i: int, j: int| 0 <= i < fields.len() && 0 <= j < fields[i].len() ==> fields[i][j] != c,
    ensures
        split_on(join_with(fields, c), c) == fields,
    decreases fields.len(),
{
    if fields.len() == 1 {
        let e = Seq::<char>::empty();
        assert(split_on(e, c) == seq![e]);
        lemma_split_on_extend(e, c, fields[0]);
        assert(e + fields[0] =~= fields[0]);
        assert(seq![e].drop_last().push(e + fields[0]) =~= fields);
    } else {
        let front = fields.drop_last();
        lemma_split_join(front, c);
        let j = join_with(front, c);
        assert(j.push(c).drop_last() =~= j);
        assert(split_on(j.push(c), c) == front.push(Seq::empty()));
        assert forall|k: int| 0 <= k < fields.last().len() implies fields.last()[k] != c by {
            assert(fields.last() == fields[fields.len() - 1]);
        }
        lemma_split_on_extend(j.push(c), c, fields.last());
        assert(Seq::<char>::empty() + fields.last() =~= fields.last());
        assert(front.push(Seq::empty()).drop_last().push(fields.last()) =~= fields);
    }
}

/// The decimal digit `d`.
pub open spec fn digit_char(d: nat) -> char {
    seq!['0', '1', '2', '3', '4', '5', '6', '7', '8', '9'][d as int]
}

/// `n` written in decimal, without leading zeros.
pub open spec fn decimal(n: nat) -> Seq<char>
    decreases n,
{
    if n < 10 {
        seq![digit_char(n)]
    } else {
        decimal(n / 10).push(digit_char(n % 10))
    }
}

/// Reading `n` written in decimal gives `n` back.
pub proof fn lemma_decimal_round_trip(n: usize)
    ensures
        usize_of(decimal(n as nat)) == Some(n),
        forall|i: int| 0 <= i < decimal(n as nat).len() ==> '0' <= #[trigger] decimal(n as nat)[i] <= '9',
{
    lemma_decimal_digits(n as nat);
}

proof fn lemma_decimal_digits(n: nat)
    ensures
        decimal(n).len() > 0,
        all_digits(decimal(n)),
        digits_value(decimal(n)) == n,
    decreases n,
{
    let d = n % 10;
    assert(digit_char(d) as nat - '0' as nat == d && '0' <= digit_char(d) <= '9') by {
        assert(d < 10);
        if d == 0 {} else if d == 1 {} else if d == 2 {} else if d == 3 {} else if d == 4 {
        } else if d == 5 {} else if d == 6 {} else if d == 7 {} else if d == 8 {} else {}
    }
    if n >= 10 {
        lemma_decimal_digits(n / 10);
        let s = decimal(n);
        assert(s.drop_last() =~= decimal(n / 10));
        assert forall|i: int| 0 <= i < s.len() implies '0' <= #[trigger] s[i] <= '9' by {
            if i < s.len() - 1 {
                assert(s[i] == decimal(n / 10)[i]);
            }
        }
        assert(s.last() == digit_char(d));
        assert(digits_value(s) == (n / 10) * 10 + d);
        assert(n == (n / 10) * 10 + n % 10) by (nonlinear_arith);
    } else {
        let s = decimal(n);
        assert(s.drop_last() =~= Seq::<char>::empty());
        assert(n % 10 == n);
        assert(s.last() == digit_char(d));
        assert(digits_value(s.drop_last()) == 0);
        assert(digits_value(s) == d);
    }
}

/// `p` with one trailing carriage return removed, if it has one.
pub open spec fn strip_cr(p: Seq<char>) -> Seq<char> {
    if p.len() > 0 && p.last() == '\r' {
        p.drop_last()
    } else {
        p
    }
}

/// The lines of `t`, as `str::lines` yields them: lines end at `\n` or
/// `\r\n`, and a final line ending does not start an empty last line.
pub open spec fn text_lines(t: Seq<char>) -> Seq<Seq<char>> {
    let pieces = split_on(t, '\n');
    let ended = pieces.drop_last().map_values(|p: Seq<char>| strip_cr(p));
    if pieces.last().len() == 0 {
        ended
    } else {
        ended.push(pieces.last())
    }
}

/// Whether every character of `s` is an ASCII decimal digit.
pub open spec fn all_digits(s: Seq<char>) -> bool {
    forall|i: int| 0 <= i < s.len() ==> '0' <= #[trigger] s[i] <= '9'
}

/// The value of a run of decimal digits, most significant first.
pub open spec fn digits_value(s: Seq<char>) -> nat
    decreases s.len(),
{
    if s.len() == 0 {
        0
    } else {
        (digits_value(s.drop_last()) * 10 + (s.last() as nat - '0' as nat)) as nat
    }
}

/// `s` without its leading `+`, if it has one.
pub open spec fn unsigned_digits(s: Seq<char>) -> Seq<char> {
    if s.len() > 0 && s[0] == '+' {
        s.drop_first()
    } else {
        s
    }
}

/// The `usize` that `s` denotes in decimal, as `usize::from_str` reads it:
/// an optional `+` and at least one digit, with a value that fits.
pub open spec fn usize_of(s: Seq<char>) -> Option<usize> {
    let d = unsigned_digits(s);
    if d.len() > 0 && all_digits(d) && digits_value(d) <= usize::MAX {
        Some(digits_value(d) as usize)
    } else {
        None
    }
}

proof fn lemma_digits_value_grows(s: Seq<char>, i: int)
    requires
        all_digits(s),
        0 <= i <= s.len(),
    ensures
        digits_value(s.take(i)) <= digits_value(s),
    decreases s.len() - i,
{
    if i < s.len() {
        lemma_digits_value_grows(s, i + 1);
        assert(s.take(i + 1).drop_last() =~= s.take(i));
    } else {
        assert(s.take(i) =~= s);
    }
}

/// Relies on `std::str::from_utf8`: it accepts exactly the valid UTF-8 byte
/// sequences, and the text it gives back is encoded by those bytes.
#[verifier::external_body]
pub(crate) fn utf8_text(bytes: &[u8]) -> (r: Option<&str>)
    ensures
        r is Some <==> valid_utf8(bytes@),
        r matches Some(t) ==> t.spec_bytes() == bytes@,
{
    std::str::from_utf8(bytes).ok()
}

/// Whether the characters of `v` are those of `w`.
pub fn is_text(v: &Vec<char>, w: &str) -> (r: bool)
    ensures
        r == (v@ == w@),
{
    let t = to_chars(w);
    if v.len() != t.len() {
        return false;
    }
    let mut i: usize = 0;
    while i < v.len()
        invariant
            i <= v@.len() == t@.len(),
            t@ == w@,
            forall|k: int| 0 <= k < i ==> v@[k] == t@[k],
        decreases v@.len() - i,
    {
        if v[i] != t[i] {
            return false;
        }
        i = i + 1;
    }
    assert(v@ =~= t@);
    true
}

/// The characters of `s`.
pub fn to_chars(s: &str) -> (r: Vec<char>)
    ensures
        r@ == s@,
{
    let mut out: Vec<char> = Vec::new();
    for c in it: s.chars()
        invariant
            it.seq() == s@,
            out@ == it.seq().take(it.index() as int),
    {
        out.push(c);
    }
    out
}

/// Relies on `String::push`: appends one character to the string.
#[verifier::external_body]
pub(crate) fn push_char(s: &mut String, c: char)
    ensures
        final(s)@ == old(s)@.push(c),
{
    s.push(c)
}

/// Appends the characters `v[from..to]` to `s`.
pub fn push_chars(s: &mut String, v: &Vec<char>, from: usize, to: usize)
    requires
        from <= to <= v@.len(),
    ensures
        final(s)@ == old(s)@ + v@.subrange(from as int, to as int),
{
    let mut i: usize = from;
    while i < to
        invariant
            from <= i <= to <= v@.len(),
            s@ == old(s)@ + v@.subrange(from as int, i as int),
        decreases to - i,
    {
        push_char(s, v[i]);
        i = i + 1;
        assert(s@ =~= old(s)@ + v@.subrange(from as int, i as int));
    }
}

/// The string of the characters `v[from..to]`.
pub fn string_of(v: &Vec<char>, from: usize, to: usize) -> (r: String)
    requires
        from <= to <= v@.len(),
    ensures
        r@ == v@.subrange(from as int, to as int),
{
    let mut s = String::new();
    push_chars(&mut s, v, from, to);
    assert(s@ =~= v@.subrange(from as int, to as int));
    s
}

/// The views of a sequence of character vectors.
pub open spec fn views(v: Seq<Vec<char>>) -> Seq<Seq<char>> {
    v.map_values(|x: Vec<char>| x@)
}

proof fn lemma_split_on_step(s: Seq<char>, c: char, i: int)
    requires
        0 <= i < s.len(),
    ensures
        split_on(s.take(i + 1), c) == if s[i] == c {
            split_on(s.take(i), c).push(Seq::empty())
        } else {
            split_on(s.take(i), c).drop_last().push(split_on(s.take(i), c).last().push(s[i]))
        },
{
    assert(s.take(i + 1).drop_last() =~= s.take(i));
    lemma_split_on_nonempty(s.take(i), c);
    let rest = split_on(s.take(i), c);
    if s[i] != c {
        assert(rest.update(rest.len() - 1, rest.last().push(s[i])) =~= rest.drop_last().push(
            rest.last().push(s[i]),
        ));
    }
}

/// Splits `s` at every occurrence of `c`.
pub fn split_chars(s: &Vec<char>, c: char) -> (r: Vec<Vec<char>>)
    ensures
        views(r@) == split_on(s@, c),
{
    let mut pieces: Vec<Vec<char>> = Vec::new();
    let mut cur: Vec<char> = Vec::new();
    let mut i: usize = 0;
    assert(s@.take(0) =~= Seq::<char>::empty());
    assert(views(pieces@).push(cur@) =~= split_on(s@.take(0), c));
    while i < s.len()
        invariant
            i <= s@.len(),
            views(pieces@).push(cur@) == split_on(s@.take(i as int), c),
        decreases s@.len() - i,
    {
        let ch = s[i];
        proof {
            lemma_split_on_step(s@, c, i as int);
        }
        let ghost before = split_on(s@.take(i as int), c);
        assert(views(pieces@) =~= before.drop_last());
        assert(cur@ == before.last());
        if ch == c {
            pieces.push(cur);
            cur = Vec::new();
        } else {
            cur.push(ch);
        }
        i = i + 1;
        assert(views(pieces@).push(cur@) =~= split_on(s@.take(i as int), c));
    }
    let ghost fin = views(pieces@).push(cur@);
    pieces.push(cur);
    assert(views(pieces@) =~= fin);
    assert(s@.take(s@.len() as int) =~= s@);
    pieces
}

/// The lines of `t`, as `str::lines` yields them.
pub fn lines_of(t: &Vec<char>) -> (r: Vec<Vec<char>>)
    ensures
        views(r@) == text_lines(t@),
{
    let mut out: Vec<Vec<char>> = Vec::new();
    let mut cur: Vec<char> = Vec::new();
    let mut i: usize = 0;
    assert(t@.take(0) =~= Seq::<char>::empty());
    assert(views(out@) =~= split_on(t@.take(0), '\n').drop_last().map_values(
        |p: Seq<char>| strip_cr(p),
    ));
    while i < t.len()
        invariant
            i <= t@.len(),
            views(out@) == split_on(t@.take(i as int), '\n').drop_last().map_values(
                |p: Seq<char>| strip_cr(p),
            ),
            cur@ == split_on(t@.take(i as int), '\n').last(),
        decreases t@.len() - i,
    {
        let ch = t[i];
        proof {
            lemma_split_on_step(t@, '\n', i as int);
            lemma_split_on_nonempty(t@.take(i as int), '\n');
        }
        let ghost before = split_on(t@.take(i as int), '\n');
        let ghost out_before = views(out@);
        if ch == '\n' {
            let n = cur.len();
            if n > 0 && cur[n - 1] == '\r' {
                cur.pop();
            }
            assert(cur@ =~= strip_cr(before.last()));
            out.push(cur);
            cur = Vec::new();
            proof {
                let after = before.push(Seq::<char>::empty());
                assert(after.drop_last() =~= before);
                assert(before.map_values(|p: Seq<char>| strip_cr(p)) =~= before.drop_last().map_values(
                    |p: Seq<char>| strip_cr(p),
                ).push(strip_cr(before.last())));
                assert(views(out@) =~= out_before.push(strip_cr(before.last())));
            }
        } else {
            cur.push(ch);
            assert(before.drop_last().push(before.last().push(ch)).drop_last() =~= before.drop_last());
            assert(views(out@) == out_before);
        }
        i = i + 1;
    }
    assert(t@.take(t@.len() as int) =~= t@);
    let ghost ended = views(out@);
    if cur.len() > 0 {
        out.push(cur);
        assert(views(out@) =~= ended.push(split_on(t@, '\n').last()));
    }
    out
}

/// The `usize` that `s` denotes in decimal, or `None` where `usize::from_str`
/// refuses it.
pub fn parse_usize(s: &Vec<char>) -> (r: Option<usize>)
    ensures
        r == usize_of(s@),
{
    let start: usize = if s.len() > 0 && s[0] == '+' {
        1
    } else {
        0
    };
    let ghost d = s@.subrange(start as int, s@.len() as int);
    assert(d =~= unsigned_digits(s@));
    if start == s.len() {
        assert(d.len() == 0);
        assert(usize_of(s@) == None::<usize>);
        return None;
    }
    let mut value: usize = 0;
    let mut i: usize = start;
    while i < s.len()
        invariant
            start <= i <= s@.len(),
            d == s@.subrange(start as int, s@.len() as int),
            d == unsigned_digits(s@),
            all_digits(d.take(i - start)),
            value == digits_value(d.take(i - start)),
        decreases s@.len() - i,
    {
        let ch = s[i];
        assert(d.take(i + 1 - start).drop_last() =~= d.take(i - start));
        if ch < '0' || ch > '9' {
            assert(d[i - start] == ch);
            assert(!all_digits(d));
            assert(usize_of(s@) == None::<usize>);
            return None;
        }
        let digit = (ch as u32 - '0' as u32) as usize;
        assert(d.take(i + 1 - start).last() == ch);
        assert(digits_value(d.take(i + 1 - start)) == value * 10 + digit);
        if value > (usize::MAX - digit) / 10 {
            proof {
                if all_digits(d) {
                    lemma_digits_value_grows(d, i + 1 - start);
                    assert(digits_value(d.take(i + 1 - start)) > usize::MAX) by (nonlinear_arith)
                        requires
                            value > (usize::MAX - digit) / 10,
                            digits_value(d.take(i + 1 - start)) == value * 10 + digit,
                    ;
                }
            }
            return None;
        }
        assert(value * 10 + digit <= usize::MAX) by (nonlinear_arith)
            requires
                value <= (usize::MAX - digit) / 10,
                digit <= 9,
        ;
        value = value * 10 + digit;
        i = i + 1;
    }
    assert(d.take(s@.len() - start) =~= d);
    Some(value)
}

} // verus!
