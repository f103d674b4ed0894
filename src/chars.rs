//! Small operations on character sequences, each proved against its spec.
use vstd::prelude::*;

verus! {

/// `p` begins with `s`.
pub open spec fn starts_with(p: Seq<char>, s: Seq<char>) -> bool {
    s.len() <= p.len() && p.subrange(0, s.len() as int) == s
}

/// `p` ends with `s`.
pub open spec fn ends_with(p: Seq<char>, s: Seq<char>) -> bool {
    s.len() <= p.len() && p.subrange(p.len() - s.len(), p.len() as int) == s
}

/// How many times `c` occurs in `p`.
pub open spec fn count_char(p: Seq<char>, c: char) -> nat
    decreases p.len(),
{
    if p.len() == 0 {
        0
    } else {
        count_char(p.drop_last(), c) + if p.last() == c { 1nat } else { 0nat }
    }
}

/// `p` holds the character `c`.
pub open spec fn has_char(p: Seq<char>, c: char) -> bool {
    exists|i: int| 0 <= i < p.len() && p[i] == c
}

/// Every character of `p` is ASCII.
pub open spec fn all_ascii(p: Seq<char>) -> bool {
    vstd::utf8::is_ascii_chars(p)
}

/// Each pair of backslashes, read left to right, becomes one backslash.
pub open spec fn collapse_backslashes(p: Seq<char>) -> Seq<char>
    decreases p.len(),
{
    if p.len() == 0 {
        p
    } else if p.len() >= 2 && p[0] == '\\' && p[1] == '\\' {
        seq!['\\'] + collapse_backslashes(p.subrange(2, p.len() as int))
    } else {
        seq![p[0]] + collapse_backslashes(p.subrange(1, p.len() as int))
    }
}

pub fn vec_starts_with(p: &Vec<char>, s: &Vec<char>) -> (r: bool)
    ensures
        r == starts_with(p@, s@),
{
    if s.len() > p.len() {
        return false;
    }
    let mut i: usize = 0;
    while i < s.len()
        invariant
            s@.len() <= p@.len(),
            i <= s@.len(),
            forall|j: int| 0 <= j < i ==> p@[j] == s@[j],
        decreases s@.len() - i,
    {
        if p[i] != s[i] {
            assert(p@.subrange(0, s@.len() as int)[i as int] != s@[i as int]);
            return false;
        }
        i = i + 1;
    }
    assert(p@.subrange(0, s@.len() as int) =~= s@);
    true
}

pub fn vec_ends_with(p: &Vec<char>, s: &Vec<char>) -> (r: bool)
    ensures
        r == ends_with(p@, s@),
{
    if s.len() > p.len() {
        return false;
    }
    let n = p.len();
    let off = n - s.len();
    let mut i: usize = 0;
    while i < s.len()
        invariant
            s@.len() <= p@.len(),
            off + s@.len() == n,
            n == p@.len(),
            i <= s@.len(),
            forall|j: int| 0 <= j < i ==> p@[off + j] == s@[j],
        decreases s@.len() - i,
    {
        if p[off + i] != s[i] {
            assert(p@.subrange(off as int, p@.len() as int)[i as int] != s@[i as int]);
            return false;
        }
        i = i + 1;
    }
    assert(p@.subrange(off as int, p@.len() as int) =~= s@);
    true
}

pub fn vec_count_char(p: &Vec<char>, c: char) -> (r: usize)
    ensures
        r == count_char(p@, c),
{
    let mut n: usize = 0;
    let mut i: usize = 0;
    while i < p.len()
        invariant
            i <= p@.len(),
            n == count_char(p@.subrange(0, i as int), c),
            n <= i,
        decreases p@.len() - i,
    {
        assert(p@.subrange(0, i + 1).drop_last() =~= p@.subrange(0, i as int));
        if p[i] == c {
            n = n + 1;
        }
        i = i + 1;
    }
    assert(p@.subrange(0, p@.len() as int) =~= p@);
    n
}

pub fn vec_has_char(p: &Vec<char>, c: char) -> (r: bool)
    ensures
        r == has_char(p@, c),
{
    let mut i: usize = 0;
    while i < p.len()
        invariant
            i <= p@.len(),
            forall|j: int| 0 <= j < i ==> p@[j] != c,
        decreases p@.len() - i,
    {
        if p[i] == c {
            return true;
        }
        i = i + 1;
    }
    false
}

pub fn vec_all_ascii(p: &Vec<char>) -> (r: bool)
    ensures
        r == all_ascii(p@),
{
    let mut i: usize = 0;
    while i < p.len()
        invariant
            i <= p@.len(),
            forall|j: int| 0 <= j < i ==> '\0' <= #[trigger] p@[j] <= '\u{7f}',
        decreases p@.len() - i,
    {
        if !('\0' <= p[i] && p[i] <= '\u{7f}') {
            return false;
        }
        i = i + 1;
    }
    true
}

/// The characters of `p` from `from` up to `to`.
pub fn subvec(p: &Vec<char>, from: usize, to: usize) -> (r: Vec<char>)
    requires
        from <= to <= p@.len(),
    ensures
        r@ == p@.subrange(from as int, to as int),
{
    let mut out: Vec<char> = Vec::new();
    let mut i: usize = from;
    while i < to
        invariant
            from <= i <= to <= p@.len(),
            out@ == p@.subrange(from as int, i as int),
        decreases to - i,
    {
        out.push(p[i]);
        i = i + 1;
        assert(out@ =~= p@.subrange(from as int, i as int));
    }
    out
}

/// `collapse_backslashes` of the characters of `p` from `from` up to `to`.
pub fn collapse_range(p: &Vec<char>, from: usize, to: usize) -> (r: Vec<char>)
    requires
        from <= to <= p@.len(),
    ensures
        r@ == collapse_backslashes(p@.subrange(from as int, to as int)),
{
    let ghost whole = p@.subrange(from as int, to as int);
    let mut out: Vec<char> = Vec::new();
    let mut i: usize = from;
    while i < to
        invariant
            from <= i <= to <= p@.len(),
            whole == p@.subrange(from as int, to as int),
            collapse_backslashes(whole) == out@ + collapse_backslashes(
                p@.subrange(i as int, to as int),
            ),
        decreases to - i,
    {
        let ghost rest = p@.subrange(i as int, to as int);
        if i + 1 < to && p[i] == '\\' && p[i + 1] == '\\' {
            assert(rest.subrange(2, rest.len() as int) =~= p@.subrange(i + 2, to as int));
            out.push('\\');
            i = i + 2;
        } else {
            assert(rest.subrange(1, rest.len() as int) =~= p@.subrange(i + 1, to as int));
            out.push(p[i]);
            i = i + 1;
        }
        assert(out@ + collapse_backslashes(p@.subrange(i as int, to as int)) =~= collapse_backslashes(whole));
    }
    assert(p@.subrange(i as int, to as int) =~= Seq::<char>::empty());
    assert(out@ =~= collapse_backslashes(whole));
    out
}


/// The pieces of `s` between `|` separators (one piece when there is none).
pub open spec fn split_bar(s: Seq<char>) -> Seq<Seq<char>>
    decreases s.len(),
{
    if s.len() == 0 {
        seq![Seq::<char>::empty()]
    } else {
        let init = split_bar(s.drop_last());
        if s.last() == '|' {
            init.push(Seq::<char>::empty())
        } else {
            init.update(init.len() - 1, init.last().push(s.last()))
        }
    }
}

pub proof fn lemma_split_bar_nonempty(s: Seq<char>)
    ensures
        split_bar(s).len() >= 1,
    decreases s.len(),
{
    if s.len() > 0 {
        lemma_split_bar_nonempty(s.drop_last());
    }
}

/// Splits a text at each `|`.
pub fn split_on_bar(s: &str) -> (r: Vec<String>)
    ensures
        r@.map_values(|x: String| x@) == split_bar(s@),
{
    let v = crate::text::chars_of(s);
    let n = v.len();
    let mut done: Vec<String> = Vec::new();
    let mut start: usize = 0;
    let mut i: usize = 0;
    assert(v@.subrange(0, 0) =~= Seq::<char>::empty());
    assert(split_bar(Seq::<char>::empty()) == done@.map_values(|x: String| x@).push(
        v@.subrange(0, 0),
    ));
    while i < n
        invariant
            n == v@.len(),
            v@ == s@,
            start <= i <= n,
            split_bar(v@.subrange(0, i as int)) == done@.map_values(|x: String| x@).push(
                v@.subrange(start as int, i as int),
            ),
        decreases n - i,
    {
        let ghost prev = v@.subrange(0, i as int);
        assert(v@.subrange(0, i + 1).drop_last() =~= prev);
        assert(v@.subrange(0, i + 1).last() == v@[i as int]);
        if v[i] == '|' {
            let piece = crate::text::string_of(&subvec(&v, start, i));
            done.push(piece);
            start = i + 1;
            assert(v@.subrange(start as int, i + 1) =~= Seq::<char>::empty());
            assert(done@.map_values(|x: String| x@) =~= split_bar(prev).drop_last().push(
                piece@,
            ));
            assert(split_bar(v@.subrange(0, i + 1)) =~= done@.map_values(|x: String| x@).push(
                v@.subrange(start as int, i + 1),
            ));
        } else {
            assert(v@.subrange(start as int, i + 1) =~= v@.subrange(start as int, i as int).push(
                v@[i as int],
            ));
            assert(split_bar(v@.subrange(0, i + 1)) =~= done@.map_values(|x: String| x@).push(
                v@.subrange(start as int, i + 1),
            ));
        }
        i = i + 1;
    }
    let last = crate::text::string_of(&subvec(&v, start, n));
    done.push(last);
    assert(v@.subrange(0, n as int) =~= v@);
    assert(done@.map_values(|x: String| x@) =~= split_bar(s@));
    done
}

} // verus!
