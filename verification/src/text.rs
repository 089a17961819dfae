//! Character-level helpers over `str` and `String`, with their
//! mathematical meaning stated over `Seq<char>`.

use vstd::prelude::*;

verus! {

/// True when the two strings hold the same characters.
pub fn str_eq(a: &str, b: &str) -> (res: bool)
    ensures
        res == (a@ == b@),
{
    let x = to_chars(a);
    let y = to_chars(b);
    if x.len() != y.len() {
        return false;
    }
    let mut i: usize = 0;
    while i < x.len()
        invariant
            i <= x.len(),
            x.len() == y.len(),
            x@ == a@,
            y@ == b@,
            forall|k: int| 0 <= k < i ==> x@[k] == y@[k],
        decreases x.len() - i,
    {
        if x[i] != y[i] {
            return false;
        }
        i = i + 1;
    }
    proof {
        assert(x@ =~= y@);
    }
    true
}

} // verus!

verus! {

/// Appends one character to a `String`, through std's `String::push`.
#[verifier::external_body]
pub fn push_char(s: &mut String, c: char)
    ensures
        final(s)@ == old(s)@.push(c),
{
    s.push(c)
}

/// The characters of `s`, in order.
pub fn to_chars(s: &str) -> (v: Vec<char>)
    ensures
        v@ == s@,
{
    let mut v: Vec<char> = Vec::new();
    for c in it: s.chars()
        invariant
            v@ == it.seq().take(it.index() as int),
    {
        v.push(c);
    }
    v
}

} // verus!

verus! {

/// How one character is written inside a double-quoted AppleScript
/// string: a backslash or a double quote gets a backslash in front.
pub open spec fn applescript_escaped_char(c: char) -> Seq<char> {
    if c == '\\' {
        seq!['\\', '\\']
    } else if c == '"' {
        seq!['\\', '"']
    } else {
        seq![c]
    }
}

/// `s` written inside a double-quoted AppleScript string.
pub open spec fn applescript_escaped(s: Seq<char>) -> Seq<char>
    decreases s.len(),
{
    if s.len() == 0 {
        Seq::empty()
    } else {
        applescript_escaped(s.drop_last()) + applescript_escaped_char(s.last())
    }
}

/// Escapes backslashes and double quotes so that `s` can stand inside
/// a double-quoted AppleScript string.
pub fn escape_applescript(s: &str) -> (r: String)
    ensures
        r@ == applescript_escaped(s@),
{
    let chars = to_chars(s);
    let mut r = String::new();
    let mut i: usize = 0;
    while i < chars.len()
        invariant
            i <= chars.len(),
            chars@ == s@,
            r@ == applescript_escaped(s@.take(i as int)),
        decreases chars.len() - i,
    {
        let c = chars[i];
        proof {
            assert(s@.take(i + 1).drop_last() =~= s@.take(i as int));
        }
        if c == '\\' {
            push_char(&mut r, '\\');
            push_char(&mut r, '\\');
        } else if c == '"' {
            push_char(&mut r, '\\');
            push_char(&mut r, '"');
        } else {
            push_char(&mut r, c);
        }
        proof {
            assert(r@ =~= applescript_escaped(s@.take(i + 1)));
        }
        i = i + 1;
    }
    proof {
        assert(s@.take(chars.len() as int) =~= s@);
    }
    r
}

} // verus!

verus! {

/// The fields of `s` between the occurrences of `sep`, as `str::split`
/// gives them: one more field than there are separators, empty fields
/// included.
pub open spec fn split_fields(s: Seq<char>, sep: char) -> Seq<Seq<char>>
    decreases s.len(),
{
    if s.len() == 0 {
        seq![Seq::empty()]
    } else {
        let prev = split_fields(s.drop_last(), sep);
        if s.last() == sep {
            prev.push(Seq::empty())
        } else {
            prev.update(prev.len() - 1, prev.last().push(s.last()))
        }
    }
}

/// True for a non-empty field.
pub open spec fn non_empty(f: Seq<char>) -> bool {
    f.len() > 0
}

/// The non-empty fields of `s` between the occurrences of `sep`, in order.
pub fn non_empty_fields(s: &str, sep: char) -> (fields: Vec<String>)
    ensures
        crate::process::views(fields@) == split_fields(s@, sep).filter(|f: Seq<char>| non_empty(f)),
{
    let chars = to_chars(s);
    let ghost pred = |f: Seq<char>| non_empty(f);
    let mut fields: Vec<String> = Vec::new();
    let mut cur = String::new();
    let mut i: usize = 0;
    proof {
        assert(s@.take(0) =~= Seq::<char>::empty());
        assert(crate::process::views(fields@) =~= Seq::<Seq<char>>::empty());
        reveal_with_fuel(Seq::<_>::filter, 1);
    }
    while i < chars.len()
        invariant
            i <= chars.len(),
            chars@ == s@,
            pred == (|f: Seq<char>| non_empty(f)),
            split_fields(s@.take(i as int), sep).len() >= 1,
            crate::process::views(fields@) == split_fields(s@.take(i as int), sep).drop_last().filter(pred),
            cur@ == split_fields(s@.take(i as int), sep).last(),
        decreases chars.len() - i,
    {
        let c = chars[i];
        let ghost prev = split_fields(s@.take(i as int), sep);
        proof {
            assert(s@.take(i + 1).drop_last() =~= s@.take(i as int));
            assert(s@.take(i + 1).last() == c);
            assert(prev =~= prev.drop_last().push(prev.last()));
        }
        if c == sep {
            proof {
                prev.drop_last().lemma_filter_push(prev.last(), pred);
                assert(split_fields(s@.take(i + 1), sep).drop_last() =~= prev);
            }
            if !cur.as_str().is_empty() {
                let ghost before = fields@;
                fields.push(cur);
                proof {
                    assert(crate::process::views(fields@) =~= crate::process::views(before).push(
                        prev.last(),
                    ));
                }
            }
            cur = String::new();
        } else {
            push_char(&mut cur, c);
            proof {
                assert(split_fields(s@.take(i + 1), sep).drop_last() =~= prev.drop_last());
            }
        }
        i = i + 1;
    }
    proof {
        assert(s@.take(chars.len() as int) =~= s@);
        let all = split_fields(s@, sep);
        assert(all =~= all.drop_last().push(all.last()));
        all.drop_last().lemma_filter_push(all.last(), pred);
    }
    if !cur.as_str().is_empty() {
        let ghost before = fields@;
        fields.push(cur);
        proof {
            assert(crate::process::views(fields@) =~= crate::process::views(before).push(
                split_fields(s@, sep).last(),
            ));
        }
    }
    fields
}

} // verus!

verus! {

/// True when `needle` occurs in `hay` as a contiguous run.
pub open spec fn occurs_in(needle: Seq<char>, hay: Seq<char>) -> bool {
    exists|i: int|
        0 <= i && i + needle.len() <= hay.len() && #[trigger] hay.subrange(i, i + needle.len())
            == needle
}

/// True when the `n` characters of `a` from `i` on equal those of `b`
/// from `j` on.
fn chars_match_at(a: &Vec<char>, i: usize, b: &Vec<char>, j: usize, n: usize) -> (m: bool)
    requires
        i + n <= a.len(),
        j + n <= b.len(),
    ensures
        m == (a@.subrange(i as int, i + n) == b@.subrange(j as int, j + n)),
{
    let mut k: usize = 0;
    while k < n
        invariant
            k <= n,
            i + n <= a.len(),
            j + n <= b.len(),
            a@.subrange(i as int, i + k) =~= b@.subrange(j as int, j + k),
        decreases n - k,
    {
        if a[i + k] != b[j + k] {
            proof {
                assert(a@.subrange(i as int, i + n)[k as int] != b@.subrange(j as int, j + n)[k as int]);
            }
            return false;
        }
        proof {
            assert(a@.subrange(i as int, i + k + 1) =~= a@.subrange(i as int, i + k).push(a@[i + k]));
            assert(b@.subrange(j as int, j + k + 1) =~= b@.subrange(j as int, j + k).push(b@[j + k]));
        }
        k = k + 1;
    }
    true
}

/// True when `s` ends with `suffix`.
pub fn ends_with(s: &str, suffix: &str) -> (b: bool)
    ensures
        b == suffix@.is_suffix_of(s@),
{
    let a = to_chars(s);
    let b = to_chars(suffix);
    if b.len() > a.len() {
        return false;
    }
    let m = chars_match_at(&a, a.len() - b.len(), &b, 0, b.len());
    proof {
        assert(b@.subrange(0, b@.len() as int) =~= b@);
    }
    m
}

/// True when `s` starts with `prefix`.
pub fn starts_with(s: &str, prefix: &str) -> (b: bool)
    ensures
        b == prefix@.is_prefix_of(s@),
{
    let a = to_chars(s);
    let b = to_chars(prefix);
    if b.len() > a.len() {
        return false;
    }
    let m = chars_match_at(&a, 0, &b, 0, b.len());
    proof {
        assert(b@.subrange(0, b@.len() as int) =~= b@);
    }
    m
}

/// True when the character `c` occurs in `s`.
pub fn contains_char(s: &str, c: char) -> (b: bool)
    ensures
        b == s@.contains(c),
{
    let a = to_chars(s);
    let mut i: usize = 0;
    while i < a.len()
        invariant
            i <= a.len(),
            a@ == s@,
            forall|k: int| 0 <= k < i ==> a@[k] != c,
        decreases a.len() - i,
    {
        if a[i] == c {
            return true;
        }
        i = i + 1;
    }
    false
}

/// True when `needle` occurs in `hay` as a contiguous run.
pub fn contains_str(hay: &str, needle: &str) -> (b: bool)
    ensures
        b == occurs_in(needle@, hay@),
{
    let h = to_chars(hay);
    let n = to_chars(needle);
    if n.len() > h.len() {
        return false;
    }
    let last = h.len() - n.len();
    let mut i: usize = 0;
    loop
        invariant
            i <= last,
            h@ == hay@,
            n@ == needle@,
            last == h.len() - n.len(),
            forall|k: int| 0 <= k < i ==> #[trigger] h@.subrange(k, k + n.len()) != n@,
        decreases last - i,
    {
        let m = chars_match_at(&h, i, &n, 0, n.len());
        proof {
            assert(n@.subrange(0, n@.len() as int) =~= n@);
        }
        if m {
            proof {
                assert(hay@.subrange(i as int, i + needle@.len()) == needle@);
            }
            return true;
        }
        if i == last {
            return false;
        }
        i = i + 1;
    }
}

} // verus!

verus! {

/// The characters with the Unicode `White_Space` property, which
/// `char::is_whitespace` tests for.
pub open spec fn is_white_space(c: char) -> bool {
    let v = c as u32;
    ||| 0x09 <= v <= 0x0D
    ||| v == 0x20
    ||| v == 0x85
    ||| v == 0xA0
    ||| v == 0x1680
    ||| 0x2000 <= v <= 0x200A
    ||| v == 0x2028
    ||| v == 0x2029
    ||| v == 0x202F
    ||| v == 0x205F
    ||| v == 0x3000
}

/// True when `c` has the Unicode `White_Space` property.
pub fn is_whitespace(c: char) -> (b: bool)
    ensures
        b == is_white_space(c),
{
    let v = c as u32;
    (0x09 <= v && v <= 0x0D) || v == 0x20 || v == 0x85 || v == 0xA0 || v == 0x1680 || (0x2000 <= v
        && v <= 0x200A) || v == 0x2028 || v == 0x2029 || v == 0x202F || v == 0x205F || v == 0x3000
}

/// `s` without its leading white space, as `str::trim_start` gives it.
pub open spec fn trim_start_of(s: Seq<char>) -> Seq<char>
    decreases s.len(),
{
    if s.len() > 0 && is_white_space(s[0]) {
        trim_start_of(s.drop_first())
    } else {
        s
    }
}

/// `s` without its trailing white space, as `str::trim_end` gives it.
pub open spec fn trim_end_of(s: Seq<char>) -> Seq<char>
    decreases s.len(),
{
    if s.len() > 0 && is_white_space(s.last()) {
        trim_end_of(s.drop_last())
    } else {
        s
    }
}

/// The index of the first character of `v` that is not white space,
/// or `v.len()` when there is none.
pub fn leading_white_space(v: &Vec<char>) -> (k: usize)
    ensures
        k <= v.len(),
        v@.skip(k as int) == trim_start_of(v@),
{
    let mut k: usize = 0;
    proof {
        assert(v@.skip(0) =~= v@);
    }
    while k < v.len() && is_whitespace(v[k])
        invariant
            k <= v.len(),
            trim_start_of(v@.skip(k as int)) == trim_start_of(v@),
        decreases v.len() - k,
    {
        proof {
            assert(v@.skip(k as int).drop_first() =~= v@.skip(k + 1));
        }
        k = k + 1;
    }
    k
}

/// `s` without its trailing white space.
pub fn trim_end(s: &str) -> (r: String)
    ensures
        r@ == trim_end_of(s@),
{
    let v = to_chars(s);
    let mut n: usize = v.len();
    proof {
        assert(v@.take(n as int) =~= v@);
    }
    while n > 0 && is_whitespace(v[n - 1])
        invariant
            n <= v.len(),
            v@ == s@,
            trim_end_of(v@.take(n as int)) == trim_end_of(s@),
        decreases n,
    {
        proof {
            assert(v@.take(n as int).drop_last() =~= v@.take(n - 1));
        }
        n = n - 1;
    }
    let mut r = String::new();
    let mut i: usize = 0;
    while i < n
        invariant
            i <= n,
            n <= v.len(),
            r@ == v@.take(i as int),
        decreases n - i,
    {
        push_char(&mut r, v[i]);
        proof {
            assert(v@.take(i + 1) =~= v@.take(i as int).push(v@[i as int]));
        }
        i = i + 1;
    }
    r
}

/// The fields of the first `n` characters of `v` between the
/// occurrences of `sep`, empty fields included.
pub fn split_chars(v: &Vec<char>, n: usize, sep: char) -> (fields: Vec<Vec<char>>)
    requires
        n <= v.len(),
    ensures
        fields@.map_values(|f: Vec<char>| f@) == split_fields(v@.take(n as int), sep),
{
    let mut fields: Vec<Vec<char>> = Vec::new();
    let mut cur: Vec<char> = Vec::new();
    let mut i: usize = 0;
    proof {
        assert(v@.take(0) =~= Seq::<char>::empty());
        assert(fields@.map_values(|f: Vec<char>| f@) =~= Seq::<Seq<char>>::empty());
    }
    while i < n
        invariant
            i <= n,
            n <= v.len(),
            split_fields(v@.take(i as int), sep).len() >= 1,
            fields@.map_values(|f: Vec<char>| f@) == split_fields(v@.take(i as int), sep).drop_last(),
            cur@ == split_fields(v@.take(i as int), sep).last(),
        decreases n - i,
    {
        let c = v[i];
        proof {
            assert(v@.take(i + 1).drop_last() =~= v@.take(i as int));
            assert(v@.take(i + 1).last() == c);
        }
        if c == sep {
            let ghost before = fields@;
            fields.push(cur);
            cur = Vec::new();
            proof {
                assert(fields@.map_values(|f: Vec<char>| f@) =~= before.map_values(
                    |f: Vec<char>| f@,
                ).push(split_fields(v@.take(i as int), sep).last()));
                assert(split_fields(v@.take(i + 1), sep).drop_last() =~= split_fields(
                    v@.take(i as int),
                    sep,
                ));
            }
        } else {
            cur.push(c);
            proof {
                assert(split_fields(v@.take(i + 1), sep).drop_last() =~= split_fields(
                    v@.take(i as int),
                    sep,
                ).drop_last());
            }
        }
        i = i + 1;
    }
    let ghost before = fields@;
    fields.push(cur);
    proof {
        let all = split_fields(v@.take(n as int), sep);
        assert(fields@.map_values(|f: Vec<char>| f@) =~= before.map_values(|f: Vec<char>| f@).push(
            all.last(),
        ));
        assert(all =~= all.drop_last().push(all.last()));
    }
    fields
}

} // verus!

verus! {

/// The pieces of `s` between line feeds, before carriage returns are
/// dropped: none for an empty string, and a final line feed ends the
/// last line instead of starting an empty one.
pub open spec fn line_pieces(s: Seq<char>) -> Seq<Seq<char>> {
    if s.len() == 0 {
        Seq::empty()
    } else if s.last() == '\n' {
        split_fields(s.drop_last(), '\n')
    } else {
        split_fields(s, '\n')
    }
}

/// `p` without one trailing carriage return.
pub open spec fn without_cr(p: Seq<char>) -> Seq<char> {
    if p.len() > 0 && p.last() == '\r' {
        p.drop_last()
    } else {
        p
    }
}

/// The lines of `s`, as `str::lines` gives them: split at `\n` or
/// `\r\n`, the terminators not included, a final terminator optional.
/// A carriage return is only dropped where a line feed follows it.
pub open spec fn lines_of(s: Seq<char>) -> Seq<Seq<char>> {
    let pieces = line_pieces(s);
    pieces.map(
        |i: int, p: Seq<char>|
            if i < pieces.len() - 1 || s.last() == '\n' {
                without_cr(p)
            } else {
                p
            },
    )
}

/// The parts joined, with `sep` between each two, as `[T]::join`
/// gives them.
pub open spec fn joined(parts: Seq<Seq<char>>, sep: Seq<char>) -> Seq<char>
    decreases parts.len(),
{
    if parts.len() == 0 {
        Seq::empty()
    } else if parts.len() == 1 {
        parts[0]
    } else {
        joined(parts.drop_last(), sep) + sep + parts.last()
    }
}

/// The lines of `s`.
pub fn lines(s: &str) -> (ls: Vec<Vec<char>>)
    ensures
        ls@.map_values(|l: Vec<char>| l@) == lines_of(s@),
{
    let v = to_chars(s);
    if v.len() == 0 {
        let ls: Vec<Vec<char>> = Vec::new();
        proof {
            assert(ls@.map_values(|l: Vec<char>| l@) =~= lines_of(s@));
        }
        return ls;
    }
    let ends_with_lf = v[v.len() - 1] == '\n';
    let n = if ends_with_lf {
        v.len() - 1
    } else {
        v.len()
    };
    proof {
        assert(v@.take(v.len() - 1) =~= v@.drop_last());
        assert(v@.take(v.len() as int) =~= v@);
    }
    let pieces = split_chars(&v, n, '\n');
    let ghost pv = pieces@.map_values(|f: Vec<char>| f@);
    assert(pv == line_pieces(s@));
    let mut ls: Vec<Vec<char>> = Vec::new();
    let mut i: usize = 0;
    while i < pieces.len()
        invariant
            i <= pieces.len(),
            pv == pieces@.map_values(|f: Vec<char>| f@),
            pv == line_pieces(s@),
            s@.len() > 0,
            ends_with_lf == (s@.last() == '\n'),
            ls@.map_values(|l: Vec<char>| l@) == lines_of(s@).take(i as int),
        decreases pieces.len() - i,
    {
        let p = &pieces[i];
        let strip = (i + 1 < pieces.len() || ends_with_lf) && p.len() > 0 && p[p.len() - 1] == '\r';
        let mut line: Vec<char> = Vec::new();
        let keep = if strip {
            p.len() - 1
        } else {
            p.len()
        };
        let mut k: usize = 0;
        while k < keep
            invariant
                k <= keep,
                keep <= p.len(),
                line@ == p@.take(k as int),
            decreases keep - k,
        {
            line.push(p[k]);
            proof {
                assert(p@.take(k + 1) =~= p@.take(k as int).push(p@[k as int]));
            }
            k = k + 1;
        }
        let ghost before = ls@;
        ls.push(line);
        proof {
            assert(pv[i as int] == p@);
            assert(p@.take(p.len() - 1) =~= p@.drop_last());
            assert(p@.take(p.len() as int) =~= p@);
            assert(pv.len() == pieces.len());
            let expected = if i < pv.len() - 1 || s@.last() == '\n' {
                without_cr(pv[i as int])
            } else {
                pv[i as int]
            };
            assert(lines_of(s@)[i as int] == expected);
            assert(line@ == expected);
            assert(lines_of(s@).len() == pv.len());
            assert(ls@ =~= before.push(line));
            assert(ls@.map_values(|l: Vec<char>| l@) =~= before.map_values(|l: Vec<char>| l@).push(
                line@,
            ));
            assert(lines_of(s@).take(i + 1) =~= lines_of(s@).take(i as int).push(expected));
            assert(ls@.map_values(|l: Vec<char>| l@) =~= lines_of(s@).take(i + 1));
        }
        i = i + 1;
    }
    proof {
        assert(lines_of(s@).take(pieces.len() as int) =~= lines_of(s@));
    }
    ls
}

} // verus!

verus! {

/// No field that `split_fields` gives holds the separator.
pub proof fn lemma_split_fields_sep_free(s: Seq<char>, sep: char)
    ensures
        split_fields(s, sep).len() >= 1,
        forall|i: int|
            0 <= i < split_fields(s, sep).len() ==> !(#[trigger] split_fields(s, sep)[i]).contains(sep),
    decreases s.len(),
{
    if s.len() > 0 {
        lemma_split_fields_sep_free(s.drop_last(), sep);
        let prev = split_fields(s.drop_last(), sep);
        if s.last() != sep {
            let last = prev.last().push(s.last());
            assert forall|k: int| 0 <= k < last.len() implies last[k] != sep by {
                if k < last.len() - 1 {
                    assert(last[k] == prev.last()[k]);
                    assert(!prev[prev.len() - 1].contains(sep));
                }
            }
        }
    }
}

/// Appending text free of the separator extends the last field.
proof fn lemma_split_fields_append(s: Seq<char>, y: Seq<char>, sep: char)
    requires
        !y.contains(sep),
    ensures
        split_fields(s + y, sep) == split_fields(s, sep).update(
            split_fields(s, sep).len() - 1,
            split_fields(s, sep).last() + y,
        ),
    decreases y.len(),
{
    lemma_split_fields_sep_free(s, sep);
    if y.len() == 0 {
        assert(s + y =~= s);
        assert(split_fields(s, sep).last() + y =~= split_fields(s, sep).last());
        assert(split_fields(s, sep).update(split_fields(s, sep).len() - 1, split_fields(s, sep).last())
            =~= split_fields(s, sep));
    } else {
        let init = y.drop_last();
        assert(!init.contains(sep)) by {
            assert forall|k: int| 0 <= k < init.len() implies init[k] != sep by {
                assert(init[k] == y[k]);
            }
        }
        assert(y.last() != sep) by {
            assert(y[y.len() - 1] == y.last());
        }
        lemma_split_fields_append(s, init, sep);
        assert((s + y).drop_last() =~= s + init);
        assert((s + y).last() == y.last());
        let prev = split_fields(s, sep);
        assert(split_fields(s + y, sep) =~= prev.update(prev.len() - 1, prev.last() + y)) by {
            assert(prev.last() + init + seq![y.last()] =~= prev.last() + y);
            assert((prev.last() + init).push(y.last()) =~= prev.last() + y);
        }
    }
}

/// Splitting joined parts, none of which holds the separator, gives the
/// parts back.
pub proof fn lemma_split_joined(parts: Seq<Seq<char>>, sep: char)
    requires
        parts.len() >= 1,
        forall|i: int| 0 <= i < parts.len() ==> !(#[trigger] parts[i]).contains(sep),
    ensures
        split_fields(joined(parts, seq![sep]), sep) == parts,
    decreases parts.len(),
{
    if parts.len() == 1 {
        assert(joined(parts, seq![sep]) == parts[0]);
        lemma_split_fields_append(Seq::empty(), parts[0], sep);
        assert(Seq::<char>::empty() + parts[0] =~= parts[0]);
        assert(split_fields(Seq::<char>::empty(), sep) =~= seq![Seq::<char>::empty()]);
        assert(Seq::<char>::empty() + parts[0] =~= parts[0]);
        assert(split_fields(parts[0], sep) =~= parts);
    } else {
        let init = parts.drop_last();
        assert forall|i: int| 0 <= i < init.len() implies !(#[trigger] init[i]).contains(sep) by {
            assert(init[i] == parts[i]);
        }
        lemma_split_joined(init, sep);
        let x = joined(init, seq![sep]);
        let y = parts.last();
        assert(!y.contains(sep)) by {
            assert(parts[parts.len() - 1] == y);
        }
        assert(joined(parts, seq![sep]) == x + seq![sep] + y);
        assert((x + seq![sep]).drop_last() =~= x);
        assert((x + seq![sep]).last() == sep);
        assert(split_fields(x + seq![sep], sep) =~= init.push(Seq::empty()));
        lemma_split_fields_append(x + seq![sep], y, sep);
        assert(Seq::<char>::empty() + y =~= y);
        assert(split_fields(x + seq![sep] + y, sep) =~= parts);
    }
}

} // verus!
