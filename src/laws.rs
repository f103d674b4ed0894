//! Properties of pattern lowering and condition expansion, stated over the
//! specifications the compiler is proved against.
use crate::chars::{
    all_ascii, collapse_backslashes, count_char, ends_with, has_char, split_bar, starts_with,
};
use crate::condition_parser::{
    all_of_word, expand_from, expand_of, join, junction, names_with_prefix, of_word_len,
    star_from,
};
use crate::matchers::{
    add_star_begin, add_star_end, eq_ignore_ascii_case, escape_text, fast_of, fast_single,
    lower_wildcards, modifier_names, named_pipes, pipe_of_name, scalar_text, star_regex,
    wildcard_regex, DefaultMatcher, FastSpec, PipeElement,
};
use crate::yaml::YamlValue;
use vstd::prelude::*;
use vstd::utf8::encode_utf8;

verus! {

/// A pattern without wildcards, escapes or non-ASCII characters.
pub open spec fn plain_pattern(s: Seq<char>) -> bool {
    all_ascii(s) && !has_char(s, '*') && !has_char(s, '?') && !has_char(s, '\\')
}

proof fn lemma_collapse_plain(s: Seq<char>)
    requires
        !has_char(s, '\\'),
    ensures
        collapse_backslashes(s) == s,
    decreases s.len(),
{
    if s.len() > 0 {
        let t = s.subrange(1, s.len() as int);
        assert forall|i: int| 0 <= i < t.len() implies t[i] != '\\' by {
            assert(t[i] == s[i + 1]);
        }
        assert(s[0] != '\\');
        lemma_collapse_plain(t);
        assert(seq![s[0]] + t =~= s);
    }
}

proof fn lemma_count_absent(s: Seq<char>, c: char)
    requires
        !has_char(s, c),
    ensures
        count_char(s, c) == 0,
    decreases s.len(),
{
    if s.len() > 0 {
        let t = s.drop_last();
        assert forall|i: int| 0 <= i < t.len() implies t[i] != c by {
            assert(t[i] == s[i]);
        }
        assert(s.last() == s[s.len() - 1]);
        lemma_count_absent(t, c);
    }
}

proof fn lemma_count_concat(a: Seq<char>, b: Seq<char>, c: char)
    ensures
        count_char(a + b, c) == count_char(a, c) + count_char(b, c),
    decreases b.len(),
{
    if b.len() == 0 {
        assert(a + b =~= a);
    } else {
        assert((a + b).drop_last() =~= a + b.drop_last());
        lemma_count_concat(a, b.drop_last(), c);
    }
}

/// A pattern with no wildcard is matched by equality without case: its fast
/// check is `Exact` of the pattern itself, and its regex is the escaped
/// pattern, character for character.
pub proof fn lemma_plain_pattern_is_exact(s: Seq<char>)
    requires
        plain_pattern(s),
    ensures
        fast_of(s, true) == Some(FastSpec::Exact(s)),
        lower_wildcards(s) == escape_text(s),
    decreases s.len(),
{
    lemma_collapse_plain(s);
    lemma_count_absent(s, '*');
    if s.len() >= 4 {
        assert(s[s.len() - 2] != '\\');
        assert(s.subrange(s.len() - 4, s.len() as int)[2] == s[s.len() - 2]);
    }
    lemma_plain_lowering(s);
}

proof fn lemma_escape_concat(a: Seq<char>, b: Seq<char>)
    ensures
        escape_text(a + b) == escape_text(a) + escape_text(b),
    decreases b.len(),
{
    if b.len() == 0 {
        assert(a + b =~= a);
        assert(escape_text(b) =~= Seq::<char>::empty());
        assert(escape_text(a) + escape_text(b) =~= escape_text(a));
    } else {
        assert((a + b).drop_last() =~= a + b.drop_last());
        lemma_escape_concat(a, b.drop_last());
        assert(escape_text(a + b) =~= escape_text(a) + escape_text(b));
    }
}

proof fn lemma_plain_lowering(s: Seq<char>)
    requires
        !has_char(s, '*'),
        !has_char(s, '?'),
        !has_char(s, '\\'),
    ensures
        lower_wildcards(s) == escape_text(s),
    decreases s.len(),
{
    if s.len() == 0 {
    } else {
        let t = s.subrange(1, s.len() as int);
        assert forall|i: int| 0 <= i < t.len() implies t[i] != '*' && t[i] != '?' && t[i] != '\\' by {
            assert(t[i] == s[i + 1]);
        }
        assert(s[0] != '*' && s[0] != '?' && s[0] != '\\');
        lemma_plain_lowering(t);
        assert(seq![s[0]] + t =~= s);
        lemma_escape_concat(seq![s[0]], t);
    }
}

/// The wildcard patterns `s*` and `*s` of a non-empty plain `s` are checked as
/// `StartsWith(s)` and `EndsWith(s)`, which decide every ASCII value without
/// falling back to the regex.
pub proof fn lemma_affix_patterns(s: Seq<char>, v: Seq<char>)
    requires
        plain_pattern(s),
        s.len() > 0,
        all_ascii(v),
    ensures
        fast_of(s + seq!['*'], true) == Some(FastSpec::StartsWith(s)),
        fast_of(seq!['*'] + s, true) == Some(FastSpec::EndsWith(s)),
        fast_single(FastSpec::StartsWith(s), v) is Some,
        fast_single(FastSpec::EndsWith(s), v) is Some,
{
    lemma_collapse_plain(s);
    lemma_count_absent(s, '*');
    let p = s + seq!['*'];
    let q = seq!['*'] + s;
    lemma_count_concat(s, seq!['*'], '*');
    lemma_count_concat(seq!['*'], s, '*');
    assert(count_char(seq!['*'], '*') == 1) by {
        assert(seq!['*'].drop_last() =~= Seq::<char>::empty());
        assert(count_char(Seq::<char>::empty(), '*') == 0);
        assert(seq!['*'].last() == '*');
    }
    assert(!has_char(p, '?')) by {
        assert forall|i: int| 0 <= i < p.len() implies p[i] != '?' by {
            if i < s.len() {
                assert(p[i] == s[i]);
            }
        }
    }
    assert(!has_char(q, '?')) by {
        assert forall|i: int| 0 <= i < q.len() implies q[i] != '?' by {
            if i > 0 {
                assert(q[i] == s[i - 1]);
            }
        }
    }
    assert(all_ascii(p)) by {
        assert forall|i: int| 0 <= i < p.len() implies '\0' <= #[trigger] p[i] <= '\u{7f}' by {
            if i < s.len() {
                assert(p[i] == s[i]);
            }
        }
    }
    assert(all_ascii(q)) by {
        assert forall|i: int| 0 <= i < q.len() implies '\0' <= #[trigger] q[i] <= '\u{7f}' by {
            if i > 0 {
                assert(q[i] == s[i - 1]);
            }
        }
    }
    // p ends with a plain character before its `*`
    assert(p[p.len() - 2] == s[s.len() - 1]);
    assert(p.subrange(p.len() - 2, p.len() as int)[0] == p[p.len() - 2]);
    if p.len() >= 4 {
        assert(p.subrange(p.len() - 4, p.len() as int)[2] == p[p.len() - 2]);
    }
    if p.len() >= 3 {
        assert(p.subrange(p.len() - 3, p.len() as int)[1] == p[p.len() - 2]);
    }
    assert(p.subrange(0, 1)[0] == s[0]);
    assert(p.subrange(0, p.len() - 1) =~= s);
    // q's last character is plain
    assert(q[q.len() - 1] == s[s.len() - 1]);
    assert(q.subrange(q.len() - 1, q.len() as int)[0] == q[q.len() - 1]);
    if q.len() >= 2 {
        assert(q.subrange(q.len() - 2, q.len() as int)[1] == q[q.len() - 1]);
    }
    if q.len() >= 4 {
        assert(q.subrange(q.len() - 4, q.len() as int)[3] == q[q.len() - 1]);
    }
    assert(q.subrange(0, 1) =~= seq!['*']);
    assert(q.subrange(1, q.len() as int) =~= s);
    if q.len() >= 8 {
        assert(q.subrange(0, 8)[0] == '*');
    }
    if p.len() >= 8 {
        assert(p.subrange(0, 8)[0] == s[0]);
    }
    assert(count_char(p, '*') == 1);
    assert(count_char(q, '*') == 1);
    assert(p.subrange(p.len() - 1, p.len() as int) =~= seq!['*']);
    assert(ends_with(p, seq!['*']));
    assert(!ends_with(p, seq!['\\', '*']));
    assert(!starts_with(p, seq!['*']));
    assert(!ends_with(q, seq!['*']));
    assert(starts_with(q, seq!['*']));
    assert(!ends_with(q, seq!['\\', '*']));
}

/// `*` in a wildcard pattern becomes a run that also takes line breaks:
/// the regex of `*` alone is `(?i)` and a repeated alternative holding `\n`.
pub proof fn lemma_star_spans_newlines()
    ensures
        wildcard_regex(seq!['*']) == seq!['(', '?', 'i', ')'] + star_regex(),
        star_regex().subrange(12, 14) == seq!['\\', 'n'],
        star_regex().last() == '*',
{
    assert(seq!['*'].subrange(1, 1) =~= Seq::<char>::empty());
    assert(lower_wildcards(Seq::<char>::empty()) == Seq::<char>::empty());
    assert(star_regex() + Seq::<char>::empty() =~= star_regex());
    assert(star_regex().subrange(12, 14) =~= seq!['\\', 'n']);
}

/// `all of P*` on its own expands to the parenthesised conjunction of exactly
/// the selection names that begin with `P`, in table order.
pub proof fn lemma_all_of_expansion(prefix: Seq<char>, names: Seq<Seq<char>>)
    requires
        prefix.len() > 0,
        !has_char(prefix, '*'),
    ensures
        expand_of(all_of_word() + prefix + seq!['*'], names) == seq!['('] + join(
            names_with_prefix(names, prefix),
            junction(true),
        ) + seq![')'],
{
    let s = all_of_word() + prefix + seq!['*'];
    let k: int = 7 + prefix.len() as int;
    assert(s.subrange(0, s.len() as int) =~= s);
    assert(s.subrange(0, 7) =~= all_of_word());
    assert(of_word_len(s, 0) == 7);
    assert forall|j: int| 7 <= j < k implies s[j] != '*' by {
        assert(s[j] == prefix[j - 7]);
    }
    lemma_star_from_plain(s, 7, k);
    assert(s[k] == '*');
    assert(star_from(s, 7) == k);
    assert(s.subrange(7, k) =~= prefix);
    assert(expand_from(s, s.len() as int, names) == Seq::<char>::empty());
    assert(seq!['('] + join(names_with_prefix(names, prefix), junction(true)) + seq![')']
        + Seq::<char>::empty() =~= seq!['('] + join(names_with_prefix(names, prefix), junction(true))
        + seq![')']);
}

proof fn lemma_star_from_plain(s: Seq<char>, q: int, k: int)
    requires
        0 <= q <= k < s.len(),
        s[k] == '*',
        forall|j: int| q <= j < k ==> s[j] != '*',
    ensures
        star_from(s, q) == k,
    decreases k - q,
{
    if q < k {
        lemma_star_from_plain(s, q + 1, k);
    }
}


proof fn lemma_split_bar_extend(x: Seq<char>, b: Seq<char>)
    requires
        !has_char(b, '|'),
    ensures
        split_bar(x + b) == split_bar(x).update(
            split_bar(x).len() - 1,
            split_bar(x).last() + b,
        ),
    decreases b.len(),
{
    crate::chars::lemma_split_bar_nonempty(x);
    if b.len() == 0 {
        assert(x + b =~= x);
        assert(split_bar(x).last() + b =~= split_bar(x).last());
        assert(split_bar(x).update(split_bar(x).len() - 1, split_bar(x).last()) =~= split_bar(x));
    } else {
        let c = b.drop_last();
        assert forall|i: int| 0 <= i < c.len() implies c[i] != '|' by {
            assert(c[i] == b[i]);
        }
        assert(b.last() == b[b.len() - 1]);
        lemma_split_bar_extend(x, c);
        assert((x + b).drop_last() =~= x + c);
        assert((x + b).last() == b.last());
        let init = split_bar(x + c);
        assert(init.len() == split_bar(x).len());
        assert(split_bar(x + b) == init.update(init.len() - 1, init.last().push(b.last())));
        assert(init.last() == split_bar(x).last() + c);
        assert(split_bar(x).last() + c + seq![b.last()] =~= split_bar(x).last() + b);
        assert(init.last().push(b.last()) =~= split_bar(x).last() + b);
        assert(init.update(init.len() - 1, split_bar(x).last() + b) =~= split_bar(x).update(
            split_bar(x).len() - 1,
            split_bar(x).last() + b,
        ));
        assert(split_bar(x + b) =~= split_bar(x).update(
            split_bar(x).len() - 1,
            split_bar(x).last() + b,
        ));
    }
}

/// A key segment without `|`, followed by `|` and a modifier name without `|`,
/// splits into exactly those two pieces.
proof fn lemma_split_key(key: Seq<char>, m: Seq<char>)
    requires
        !has_char(key, '|'),
        !has_char(m, '|'),
    ensures
        split_bar(key) == seq![key],
        split_bar(key + seq!['|'] + m) == seq![key, m],
{
    lemma_split_bar_extend(Seq::<char>::empty(), key);
    assert(Seq::<char>::empty() + key =~= key);
    assert(split_bar(Seq::<char>::empty()) == seq![Seq::<char>::empty()]);
    assert(Seq::<char>::empty() + key =~= key);
    assert(split_bar(key) =~= seq![key]);
    let kb = key + seq!['|'];
    assert(kb.drop_last() =~= key);
    assert(split_bar(kb) =~= seq![key, Seq::<char>::empty()]);
    lemma_split_bar_extend(kb, m);
    assert(Seq::<char>::empty() + m =~= m);
    assert(split_bar(kb + m) =~= seq![key, m]);
}

/// The text `|startswith`, then the text `|endswith`.
pub open spec fn startswith_suffix() -> Seq<char> {
    seq!['|'] + "startswith"@
}

pub open spec fn endswith_suffix() -> Seq<char> {
    seq!['|'] + "endswith"@
}

/// `field|startswith: s` and `field: s*` make matchers that accept exactly
/// the same values, as do `field|endswith: s` and `field: *s`.
pub proof fn lemma_affix_modifiers_are_wildcards(
    m1: DefaultMatcher,
    m2: DefaultMatcher,
    key: Seq<char>,
    y1: YamlValue,
    y2: YamlValue,
    s: Seq<char>,
    v: Option<Seq<char>>,
    prefix: bool,
)
    requires
        key.len() > 0,
        !has_char(key, '|'),
        !has_char(s, '*'),
        !has_char(s, '\\'),
        scalar_text(y1) == Some(s),
        scalar_text(y2) == Some(
            if prefix {
                s + seq!['*']
            } else {
                seq!['*'] + s
            },
        ),
        m1.compiled_from(
            seq![key + if prefix { startswith_suffix() } else { endswith_suffix() }],
            y1,
        ),
        m2.compiled_from(seq![key], y2),
    ensures
        m1.matches_spec(v) == m2.matches_spec(v),
{
    reveal_strlit("startswith");
    reveal_strlit("endswith");
    let name: Seq<char> = if prefix { "startswith"@ } else { "endswith"@ };
    assert(!has_char(name, '|'));
    lemma_split_key(key, name);
    assert(key + (seq!['|'] + name) =~= key + seq!['|'] + name);
    let k1 = seq![key + if prefix { startswith_suffix() } else { endswith_suffix() }];
    let k2 = seq![key];
    assert(modifier_names(k1) =~= seq![name]);
    assert(modifier_names(k2) =~= Seq::<Seq<char>>::empty());
    let e = if prefix { PipeElement::Startswith } else { PipeElement::Endswith };
    assert(pipe_of_name(name) == Some(e));
    assert(named_pipes(seq![name]) =~= seq![e]);
    assert(named_pipes(Seq::<Seq<char>>::empty()) =~= Seq::<PipeElement>::empty());
    assert(!seq![e].contains(PipeElement::Cidr)) by {
        if seq![e].contains(PipeElement::Cidr) {
            let i = choose|i: int| 0 <= i < 1 && seq![e][i] == PipeElement::Cidr;
        }
    }
    assert(!seq![e].contains(PipeElement::Re)) by {
        if seq![e].contains(PipeElement::Re) {
            let i = choose|i: int| 0 <= i < 1 && seq![e][i] == PipeElement::Re;
        }
    }
    assert(!Seq::<PipeElement>::empty().contains(PipeElement::Cidr));
    assert(!Seq::<PipeElement>::empty().contains(PipeElement::Re));
    if prefix {
        if s.len() > 0 {
            assert(s[s.len() - 1] != '*' && s[s.len() - 1] != '\\');
            assert(s.subrange(s.len() - 1, s.len() as int)[0] == s[s.len() - 1]);
            if s.len() >= 2 {
                assert(s.subrange(s.len() - 2, s.len() as int)[1] == s[s.len() - 1]);
            }
            if s.len() >= 3 {
                assert(s.subrange(s.len() - 3, s.len() as int)[2] == s[s.len() - 1]);
            }
        }
        assert(add_star_end(s) == s + seq!['*']);
    } else {
        if s.len() > 0 {
            assert(s[0] != '*');
            assert(s.subrange(0, 1)[0] == s[0]);
            if s.len() >= 2 {
                assert(s[1] != '*');
                assert(s.subrange(0, 2)[1] == s[1]);
            }
            if s.len() >= 3 {
                assert(s[2] != '*');
                assert(s.subrange(0, 3)[2] == s[2]);
            }
        }
        assert(add_star_begin(s) == seq!['*'] + s);
    }
    assert(seq![e].push(PipeElement::Wildcard).drop_first() =~= seq![PipeElement::Wildcard]);
    assert(seq![PipeElement::Wildcard].drop_first() =~= Seq::<PipeElement>::empty());
    assert(Seq::<PipeElement>::empty().push(PipeElement::Wildcard) =~= seq![PipeElement::Wildcard]);
}


/// A matcher made from `field: s`, with `s` free of wildcards and escapes,
/// accepts exactly the values equal to `s` up to ASCII case.
pub proof fn lemma_plain_pattern_matches_exactly(
    m: DefaultMatcher,
    key: Seq<char>,
    y: YamlValue,
    s: Seq<char>,
    v: Seq<char>,
)
    requires
        key.len() > 0,
        !has_char(key, '|'),
        plain_pattern(s),
        scalar_text(y) == Some(s),
        m.compiled_from(seq![key], y),
    ensures
        m.matches_spec(Some(v)) == eq_ignore_ascii_case(encode_utf8(v), encode_utf8(s)),
{
    lemma_split_key(key, Seq::<char>::empty());
    assert(modifier_names(seq![key]) =~= Seq::<Seq<char>>::empty());
    assert(named_pipes(Seq::<Seq<char>>::empty()) =~= Seq::<PipeElement>::empty());
    assert(!Seq::<PipeElement>::empty().contains(PipeElement::Cidr));
    lemma_plain_pattern_is_exact(s);
    assert(m.fast_spec() == Some(seq![FastSpec::Exact(s)]));
    assert(m.fast_spec()->0[0] == FastSpec::Exact(s));
}


/// For a non-empty plain `s`, the matcher of `field: s*` accepts an ASCII value
/// exactly when the value begins with `s` up to ASCII case, and that of
/// `field: *s` exactly when it ends with `s` up to ASCII case.
pub proof fn lemma_affix_wildcards_are_case_blind(
    m: DefaultMatcher,
    key: Seq<char>,
    y: YamlValue,
    s: Seq<char>,
    v: Seq<char>,
    prefix: bool,
)
    requires
        key.len() > 0,
        !has_char(key, '|'),
        plain_pattern(s),
        s.len() > 0,
        all_ascii(v),
        scalar_text(y) == Some(
            if prefix {
                s + seq!['*']
            } else {
                seq!['*'] + s
            },
        ),
        m.compiled_from(seq![key], y),
    ensures
        m.matches_spec(Some(v)) == {
            let sb = encode_utf8(s);
            let vb = encode_utf8(v);
            sb.len() <= vb.len() && if prefix {
                eq_ignore_ascii_case(sb, vb.subrange(0, sb.len() as int))
            } else {
                eq_ignore_ascii_case(sb, vb.subrange(vb.len() - sb.len(), vb.len() as int))
            }
        },
{
    lemma_split_key(key, Seq::<char>::empty());
    assert(modifier_names(seq![key]) =~= Seq::<Seq<char>>::empty());
    assert(named_pipes(Seq::<Seq<char>>::empty()) =~= Seq::<PipeElement>::empty());
    assert(!Seq::<PipeElement>::empty().contains(PipeElement::Cidr));
    assert(!Seq::<PipeElement>::empty().contains(PipeElement::Re));
    assert(Seq::<PipeElement>::empty().push(PipeElement::Wildcard) =~= seq![PipeElement::Wildcard]);
    lemma_affix_patterns(s, v);
    let f = if prefix { FastSpec::StartsWith(s) } else { FastSpec::EndsWith(s) };
    assert(m.fast_spec() == Some(seq![f]));
    assert(m.fast_spec()->0[0] == f);
    assert(m.pipes@ == seq![PipeElement::Wildcard]);
    assert(m.pipes@[0] == PipeElement::Wildcard);
}

} // verus!
