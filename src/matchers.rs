//! Field predicates: a pattern with pipe modifiers, matched against one field value.
use crate::chars::{
    all_ascii, collapse_backslashes, collapse_range, count_char, ends_with, has_char,
    split_bar, split_on_bar, starts_with, subvec, vec_all_ascii, vec_count_char, vec_ends_with,
    vec_has_char, vec_starts_with,
};
use crate::text::{
    bytes_contain, contains_str, decimal, i64_text, lower_of, lowercase, string_of,
};
use crate::yaml::YamlValue;
use cidr_utils::cidr::IpCidr;
use regex::Regex;
use vstd::prelude::*;
use vstd::utf8::encode_utf8;

verus! {

#[verifier::external_type_specification]
#[verifier::external_body]
pub struct ExRegex(Regex);

#[verifier::external_type_specification]
#[verifier::external_body]
pub struct ExIpCidr(IpCidr);

/// Whether `Regex::new` accepts the pattern.
pub uninterp spec fn regex_accepts(p: Seq<char>) -> bool;

/// The byte spans, in order, that `Regex::find_iter` reports for pattern `p` on `v`.
pub uninterp spec fn regex_match_spans(p: Seq<char>, v: Seq<char>) -> Seq<(usize, usize)>;

/// Whether `Regex::is_match` finds pattern `p` somewhere in `v`.
pub uninterp spec fn regex_finds(p: Seq<char>, v: Seq<char>) -> bool;

/// Whether `IpCidr::from_str` accepts the text.
pub uninterp spec fn cidr_accepts(p: Seq<char>) -> bool;

/// Whether `v` reads as an IP address that lies in the network written `net`.
pub uninterp spec fn cidr_hit(net: Seq<char>, v: Seq<char>) -> bool;

/// The 64 characters of the standard base64 alphabet, in order.
pub open spec fn base64_alphabet() -> Seq<char> {
    seq!['A', 'B', 'C', 'D', 'E', 'F', 'G', 'H', 'I', 'J', 'K', 'L', 'M', 'N', 'O', 'P', 'Q', 'R', 'S', 'T', 'U', 'V', 'W', 'X', 'Y', 'Z', 'a', 'b', 'c', 'd', 'e', 'f', 'g', 'h', 'i', 'j', 'k', 'l', 'm', 'n', 'o', 'p', 'q', 'r', 's', 't', 'u', 'v', 'w', 'x', 'y', 'z', '0', '1', '2', '3', '4', '5', '6', '7', '8', '9', '+', '/']
}

/// The standard alphabet's character for the 6-bit value `x`.
pub open spec fn b64(x: int) -> char {
    base64_alphabet()[x]
}

/// Standard base64 with padding: each 3 bytes become 4 characters of 6 bits
/// each; a last group of 1 or 2 bytes is padded with `=` to 4 characters.
pub open spec fn base64_of(b: Seq<u8>) -> Seq<char>
    decreases b.len(),
{
    if b.len() == 0 {
        Seq::<char>::empty()
    } else if b.len() == 1 {
        let x = b[0] as int;
        seq![b64(x / 4), b64((x % 4) * 16), '=', '=']
    } else if b.len() == 2 {
        let x = b[0] as int;
        let y = b[1] as int;
        seq![b64(x / 4), b64((x % 4) * 16 + y / 16), b64((y % 16) * 4), '=']
    } else {
        let x = b[0] as int;
        let y = b[1] as int;
        let z = b[2] as int;
        seq![b64(x / 4), b64((x % 4) * 16 + y / 16), b64((y % 16) * 4 + z / 64), b64(z % 64)]
            + base64_of(b.subrange(3, b.len() as int))
    }
}

/// A compiled regular expression, with the pattern it was compiled from.
pub struct CompiledRegex {
    re: Regex,
    source: Ghost<Seq<char>>,
}

impl CompiledRegex {
    pub closed spec fn source(&self) -> Seq<char> {
        self.source@
    }
}

/// An IP network parsed from CIDR notation, with the text it was parsed from.
pub struct CidrNetwork {
    net: IpCidr,
    source: Ghost<Seq<char>>,
}

impl CidrNetwork {
    pub closed spec fn source(&self) -> Seq<char> {
        self.source@
    }
}

/// Relies on `regex::Regex::new`: it succeeds on the patterns its syntax accepts.
#[verifier::external_body]
fn compile_regex(p: &str) -> (r: Option<CompiledRegex>)
    ensures
        r is Some <==> regex_accepts(p@),
        r matches Some(c) ==> c.source() == p@,
{
    match Regex::new(p) {
        Ok(re) => Some(CompiledRegex { re, source: Ghost(p@) }),
        Err(_) => None,
    }
}

/// Relies on `regex::Regex::find_iter`: the spans of the successive matches.
#[verifier::external_body]
fn regex_spans(c: &CompiledRegex, v: &str) -> (r: Vec<(usize, usize)>)
    ensures
        r@ == regex_match_spans(c.source(), v@),
{
    c.re.find_iter(v).map(|m| (m.start(), m.end())).collect()
}

/// Relies on `regex::Regex::is_match`: whether the pattern matches anywhere in `v`.
#[verifier::external_body]
fn regex_search(c: &CompiledRegex, v: &str) -> (r: bool)
    ensures
        r == regex_finds(c.source(), v@),
{
    c.re.is_match(v)
}

/// Relies on `cidr_utils::cidr::IpCidr::from_str`: it succeeds on valid CIDR notation.
#[verifier::external_body]
fn parse_cidr(p: &str) -> (r: Option<CidrNetwork>)
    ensures
        r is Some <==> cidr_accepts(p@),
        r matches Some(c) ==> c.source() == p@,
{
    match IpCidr::from_str(p) {
        Ok(net) => Some(CidrNetwork { net, source: Ghost(p@) }),
        Err(_) => None,
    }
}

/// Relies on `cidr_utils::cidr::IpCidr::contains`, applied to `v` read as an IP
/// address; a value that is no address is not contained.
#[verifier::external_body]
fn cidr_contains(c: &CidrNetwork, v: &str) -> (r: bool)
    ensures
        r == cidr_hit(c.source(), v@),
{
    match v.parse() {
        Ok(ip) => c.net.contains(ip),
        Err(_) => false,
    }
}

/// Relies on `base64::engine::general_purpose::STANDARD`'s `encode`: the
/// standard alphabet, with `=` padding.
#[verifier::external_body]
fn base64_encode(b: &[u8]) -> (r: String)
    ensures
        r@ == base64_of(b@),
{
    base64::Engine::encode(&base64::engine::general_purpose::STANDARD, b)
}

/// The characters that `regex::escape` puts a backslash before.
pub open spec fn is_meta_character(c: char) -> bool {
    c == '\\' || c == '.' || c == '+' || c == '*' || c == '?' || c == '(' || c == ')'
        || c == '|' || c == '[' || c == ']' || c == '{' || c == '}' || c == '^' || c == '$'
        || c == '#' || c == '&' || c == '-' || c == '~'
}

/// A text with a backslash before every regex meta character.
pub open spec fn escape_text(s: Seq<char>) -> Seq<char>
    decreases s.len(),
{
    if s.len() == 0 {
        s
    } else {
        escape_text(s.drop_last()) + if is_meta_character(s.last()) {
            seq!['\\', s.last()]
        } else {
            seq![s.last()]
        }
    }
}

/// Relies on `regex::escape`: a backslash before each meta character, nothing else changed.
#[verifier::external_body]
fn regex_escape(v: &Vec<char>) -> (r: Vec<char>)
    ensures
        r@ == escape_text(v@),
{
    regex::escape(&v.iter().collect::<String>()).chars().collect()
}


/// The regex that an unescaped `*` becomes: any run of characters, newlines included.
pub open spec fn star_regex() -> Seq<char> {
    seq![
        '(', '.', '|', '\\', 'a', '|', '\\', 'f', '|', '\\', 't', '|', '\\', 'n', '|', '\\', 'r',
        '|', '\\', 'v', ')', '*',
    ]
}

/// Wildcard text lowered to regex text: `\\*` and `\\?` are a literal backslash
/// before a wildcard, `\*` and `\?` are literal, `*` is any run and `?` any one
/// character; every other character is escaped.
pub open spec fn lower_wildcards(p: Seq<char>) -> Seq<char>
    decreases p.len(),
{
    if p.len() == 0 {
        p
    } else if p.len() >= 3 && p[0] == '\\' && p[1] == '\\' && p[2] == '*' {
        escape_text(seq!['\\']) + star_regex() + lower_wildcards(p.subrange(3, p.len() as int))
    } else if p.len() >= 3 && p[0] == '\\' && p[1] == '\\' && p[2] == '?' {
        escape_text(seq!['\\']) + seq!['.'] + lower_wildcards(p.subrange(3, p.len() as int))
    } else if p.len() >= 2 && p[0] == '\\' && p[1] == '*' {
        escape_text(seq!['*']) + lower_wildcards(p.subrange(2, p.len() as int))
    } else if p.len() >= 2 && p[0] == '\\' && p[1] == '?' {
        escape_text(seq!['?']) + lower_wildcards(p.subrange(2, p.len() as int))
    } else if p[0] == '*' {
        star_regex() + lower_wildcards(p.subrange(1, p.len() as int))
    } else if p[0] == '?' {
        seq!['.'] + lower_wildcards(p.subrange(1, p.len() as int))
    } else {
        escape_text(seq![p[0]]) + lower_wildcards(p.subrange(1, p.len() as int))
    }
}

/// The case-insensitive regex for a wildcard pattern.
pub open spec fn wildcard_regex(p: Seq<char>) -> Seq<char> {
    seq!['(', '?', 'i', ')'] + lower_wildcards(p)
}

fn star_regex_vec() -> (r: Vec<char>)
    ensures
        r@ == star_regex(),
{
    let r = vec![
        '(', '.', '|', '\\', 'a', '|', '\\', 'f', '|', '\\', 't', '|', '\\', 'n', '|', '\\', 'r',
        '|', '\\', 'v', ')', '*',
    ];
    assert(r@ =~= star_regex());
    r
}

/// Lowers a wildcard pattern to a case-insensitive regex.
pub fn pipe_pattern_wildcard(pattern: &Vec<char>) -> (r: Vec<char>)
    ensures
        r@ == wildcard_regex(pattern@),
{
    let p = pattern;
    let n = p.len();
    let mut out: Vec<char> = vec!['(', '?', 'i', ')'];
    let mut i: usize = 0;
    assert(p@.subrange(0, n as int) =~= p@);
    while i < n
        invariant
            n == p@.len(),
            i <= n,
            wildcard_regex(p@) == out@ + lower_wildcards(p@.subrange(i as int, n as int)),
        decreases n - i,
    {
        let ghost rest = p@.subrange(i as int, n as int);
        assert(rest.len() == n - i);
        assert(forall|k: int| 0 <= k < rest.len() ==> rest[k] == p@[i + k]);
        let mut piece: Vec<char>;
        if n - i > 2 && p[i] == '\\' && p[i + 1] == '\\' && (p[i + 2] == '*' || p[i + 2] == '?') {
            let bs = vec!['\\'];
            assert(bs@ =~= seq!['\\']);
            piece = regex_escape(&bs);
            if p[i + 2] == '*' {
                let mut st = star_regex_vec();
                piece.append(&mut st);
            } else {
                piece.push('.');
            }
            assert(rest.subrange(3, rest.len() as int) =~= p@.subrange(i + 3, n as int));
            i = i + 3;
        } else if n - i > 1 && p[i] == '\\' && (p[i + 1] == '*' || p[i + 1] == '?') {
            let one = vec![p[i + 1]];
            assert(one@ =~= seq![p@[i + 1]]);
            piece = regex_escape(&one);
            assert(rest.subrange(2, rest.len() as int) =~= p@.subrange(i + 2, n as int));
            i = i + 2;
        } else {
            if p[i] == '*' {
                piece = star_regex_vec();
            } else if p[i] == '?' {
                piece = vec!['.'];
                assert(piece@ =~= seq!['.']);
            } else {
                let one = vec![p[i]];
                assert(one@ =~= seq![p@[i as int]]);
                piece = regex_escape(&one);
            }
            assert(rest.subrange(1, rest.len() as int) =~= p@.subrange(i + 1, n as int));
            i = i + 1;
        }
        assert(lower_wildcards(rest) == piece@ + lower_wildcards(p@.subrange(i as int, n as int)));
        let ghost before = out@;
        out.append(&mut piece);
        assert(before + lower_wildcards(rest) =~= out@ + lower_wildcards(
            p@.subrange(i as int, n as int),
        ));
    }
    assert(p@.subrange(i as int, n as int) =~= Seq::<char>::empty());
    assert(out@ =~= wildcard_regex(p@));
    out
}


/// A modifier written after `|` in a field key.
#[derive(PartialEq, Eq, Structural, Clone, Copy, Debug)]
pub enum PipeElement {
    Startswith,
    Endswith,
    Contains,
    Re,
    Wildcard,
    Base64offset,
    Cidr,
    All,
    AllOnly,
}

/// The modifier a key segment names, if any (case-sensitive).
pub open spec fn pipe_of_name(k: Seq<char>) -> Option<PipeElement> {
    if k == "startswith"@ {
        Some(PipeElement::Startswith)
    } else if k == "endswith"@ {
        Some(PipeElement::Endswith)
    } else if k == "contains"@ {
        Some(PipeElement::Contains)
    } else if k == "re"@ {
        Some(PipeElement::Re)
    } else if k == "base64offset"@ {
        Some(PipeElement::Base64offset)
    } else if k == "cidr"@ {
        Some(PipeElement::Cidr)
    } else if k == "all"@ {
        Some(PipeElement::All)
    } else if k == "allOnly"@ {
        Some(PipeElement::AllOnly)
    } else {
        None
    }
}

/// `p` with a trailing wildcard, unless it already has one.
pub open spec fn add_star_end(p: Seq<char>) -> Seq<char> {
    if ends_with(p, seq!['/', '/', '*']) {
        p
    } else if ends_with(p, seq!['/', '*']) {
        p + seq!['*']
    } else if ends_with(p, seq!['*']) {
        p
    } else if ends_with(p, seq!['\\']) {
        p + seq!['\\', '*']
    } else {
        p + seq!['*']
    }
}

/// `p` with a leading wildcard, unless it already has one.
pub open spec fn add_star_begin(p: Seq<char>) -> Seq<char> {
    if starts_with(p, seq!['/', '/', '*']) {
        p
    } else if starts_with(p, seq!['/', '*']) {
        seq!['*'] + p
    } else if starts_with(p, seq!['*']) {
        p
    } else {
        seq!['*'] + p
    }
}

/// The textual transform of one modifier on the pattern.
pub open spec fn pipe_pattern_spec(e: PipeElement, p: Seq<char>) -> Seq<char> {
    match e {
        PipeElement::Startswith => add_star_end(p),
        PipeElement::Endswith => add_star_begin(p),
        PipeElement::Contains => add_star_end(add_star_begin(p)),
        PipeElement::Wildcard => wildcard_regex(p),
        _ => p,
    }
}

/// The modifiers' transforms applied to the pattern, first to last.
pub open spec fn apply_pipes(p: Seq<char>, pipes: Seq<PipeElement>) -> Seq<char>
    decreases pipes.len(),
{
    if pipes.len() == 0 {
        p
    } else {
        apply_pipes(pipe_pattern_spec(pipes[0], p), pipes.drop_first())
    }
}

impl PipeElement {
    /// Reads a modifier name.
    pub fn new(key: &str) -> (r: Result<PipeElement, String>)
        ensures
            r matches Ok(e) ==> pipe_of_name(key@) == Some(e),
            r is Err ==> pipe_of_name(key@) is None,
            r matches Err(m) ==> m@ == "An unknown pipe element was specified. key:"@,
    {
        if crate::text::text_eq(key, "startswith") {
            Ok(PipeElement::Startswith)
        } else if crate::text::text_eq(key, "endswith") {
            Ok(PipeElement::Endswith)
        } else if crate::text::text_eq(key, "contains") {
            Ok(PipeElement::Contains)
        } else if crate::text::text_eq(key, "re") {
            Ok(PipeElement::Re)
        } else if crate::text::text_eq(key, "base64offset") {
            Ok(PipeElement::Base64offset)
        } else if crate::text::text_eq(key, "cidr") {
            Ok(PipeElement::Cidr)
        } else if crate::text::text_eq(key, "all") {
            Ok(PipeElement::All)
        } else if crate::text::text_eq(key, "allOnly") {
            Ok(PipeElement::AllOnly)
        } else {
            Err(String::from_str("An unknown pipe element was specified. key:"))
        }
    }

    /// Applies this modifier's transform to the pattern.
    pub fn pipe_pattern(&self, pattern: Vec<char>) -> (r: Vec<char>)
        ensures
            r@ == pipe_pattern_spec(*self, pattern@),
    {
        match self {
            PipeElement::Startswith => add_asterisk_end(pattern),
            PipeElement::Endswith => add_asterisk_begin(pattern),
            PipeElement::Contains => add_asterisk_end(add_asterisk_begin(pattern)),
            PipeElement::Wildcard => pipe_pattern_wildcard(&pattern),
            _ => pattern,
        }
    }
}

fn add_asterisk_end(p: Vec<char>) -> (r: Vec<char>)
    ensures
        r@ == add_star_end(p@),
{
    let mut p = p;
    let a = vec!['/', '/', '*'];
    let b = vec!['/', '*'];
    let c = vec!['*'];
    let d = vec!['\\'];
    assert(a@ =~= seq!['/', '/', '*']);
    assert(b@ =~= seq!['/', '*']);
    assert(c@ =~= seq!['*']);
    assert(d@ =~= seq!['\\']);
    if vec_ends_with(&p, &a) {
    } else if vec_ends_with(&p, &b) {
        p.push('*');
    } else if vec_ends_with(&p, &c) {
    } else if vec_ends_with(&p, &d) {
        p.push('\\');
        p.push('*');
    } else {
        p.push('*');
    }
    p
}

fn add_asterisk_begin(p: Vec<char>) -> (r: Vec<char>)
    ensures
        r@ == add_star_begin(p@),
{
    let a = vec!['/', '/', '*'];
    let b = vec!['/', '*'];
    let c = vec!['*'];
    assert(a@ =~= seq!['/', '/', '*']);
    assert(b@ =~= seq!['/', '*']);
    assert(c@ =~= seq!['*']);
    if vec_starts_with(&p, &a) || (!vec_starts_with(&p, &b) && vec_starts_with(&p, &c)) {
        p
    } else {
        let mut r = vec!['*'];
        let mut q = p;
        r.append(&mut q);
        r
    }
}

/// Runs the pattern through every modifier's transform, first to last.
fn from_pattern_to_regex_str(pattern: Vec<char>, pipes: &Vec<PipeElement>) -> (r: Vec<char>)
    ensures
        r@ == apply_pipes(pattern@, pipes@),
{
    let mut acc = pattern;
    let mut i: usize = 0;
    assert(pipes@.subrange(0, pipes@.len() as int) =~= pipes@);
    while i < pipes.len()
        invariant
            i <= pipes@.len(),
            apply_pipes(pattern@, pipes@) == apply_pipes(acc@, pipes@.subrange(i as int, pipes@.len() as int)),
        decreases pipes@.len() - i,
    {
        let ghost rest = pipes@.subrange(i as int, pipes@.len() as int);
        assert(rest.drop_first() =~= pipes@.subrange(i + 1, pipes@.len() as int));
        acc = pipes[i].pipe_pattern(acc);
        i = i + 1;
    }
    assert(pipes@.subrange(i as int, pipes@.len() as int) =~= Seq::<PipeElement>::empty());
    acc
}


/// A pattern shape that is checked without a regex.
pub enum FastMatch {
    /// Equal to the text, ASCII letters compared without case.
    Exact(String),
    /// Begins with the text, ASCII letters compared without case.
    StartsWith(String),
    /// Ends with the text, ASCII letters compared without case.
    EndsWith(String),
    /// Holds the (already lower-cased) text.
    Contains(String),
    /// Holds the (already lower-cased) text; made from the `|all` form.
    AllOnly(String),
}

/// The mathematical content of a `FastMatch`.
pub enum FastSpec {
    Exact(Seq<char>),
    StartsWith(Seq<char>),
    EndsWith(Seq<char>),
    Contains(Seq<char>),
    AllOnly(Seq<char>),
}

impl View for FastMatch {
    type V = FastSpec;

    open spec fn view(&self) -> FastSpec {
        match self {
            FastMatch::Exact(s) => FastSpec::Exact(s@),
            FastMatch::StartsWith(s) => FastSpec::StartsWith(s@),
            FastMatch::EndsWith(s) => FastSpec::EndsWith(s@),
            FastMatch::Contains(s) => FastSpec::Contains(s@),
            FastMatch::AllOnly(s) => FastSpec::AllOnly(s@),
        }
    }
}

/// `s` lower-cased when `ignore_case` holds.
pub open spec fn fold_case(s: Seq<char>, ignore_case: bool) -> Seq<char> {
    if ignore_case {
        lower_of(s)
    } else {
        s
    }
}

/// `s` ends with an escaped `*` that is not itself after an escaped backslash.
pub open spec fn ends_with_literal_asterisk(s: Seq<char>) -> bool {
    ends_with(s, seq!['\\', '*']) && !ends_with(s, seq!['\\', '\\', '*'])
}

/// The `allOnly*` marker that the `|all` form puts before its pattern.
pub open spec fn all_only_marker() -> Seq<char> {
    seq!['a', 'l', 'l', 'O', 'n', 'l', 'y', '*']
}

/// The regex-free shape of a wildcard pattern, where it has one.
pub open spec fn fast_of(s: Seq<char>, ignore_case: bool) -> Option<FastSpec> {
    let w = count_char(s, '*');
    let n = s.len() as int;
    if has_char(s, '?') || ends_with(s, seq!['\\', '\\', '\\', '*']) || (!all_ascii(s) && has_char(
        s,
        '*',
    )) {
        None
    } else if starts_with(s, all_only_marker()) && ends_with(s, seq!['*']) && w == 2 {
        Some(FastSpec::AllOnly(fold_case(collapse_backslashes(s.subrange(8, n - 1)), ignore_case)))
    } else if starts_with(s, seq!['*']) && ends_with(s, seq!['*']) && w == 2
        && !ends_with_literal_asterisk(s) {
        Some(FastSpec::Contains(fold_case(collapse_backslashes(s.subrange(1, n - 1)), ignore_case)))
    } else if starts_with(s, seq!['*']) && w == 1 && !ends_with_literal_asterisk(s) {
        Some(FastSpec::EndsWith(collapse_backslashes(s.subrange(1, n))))
    } else if ends_with(s, seq!['*']) && w == 1 && !ends_with_literal_asterisk(s) {
        Some(FastSpec::StartsWith(collapse_backslashes(s.subrange(0, n - 1))))
    } else if has_char(s, '*') {
        None
    } else {
        Some(FastSpec::Exact(collapse_backslashes(s)))
    }
}

fn folded(v: Vec<char>, ignore_case: bool) -> (r: String)
    ensures
        r@ == fold_case(v@, ignore_case),
{
    let s = string_of(&v);
    if ignore_case {
        lowercase(s.as_str())
    } else {
        s
    }
}

/// Turns a wildcard pattern into a regex-free check where its shape allows.
fn convert_to_fast_match(s: &Vec<char>, ignore_case: bool) -> (r: Option<FastMatch>)
    ensures
        r matches Some(f) ==> fast_of(s@, ignore_case) == Some(f@),
        r is None ==> fast_of(s@, ignore_case) is None,
{
    let n = s.len();
    let w = vec_count_char(s, '*');
    let has_star = vec_has_char(s, '*');
    let e3 = vec!['\\', '\\', '\\', '*'];
    let e2 = vec!['\\', '\\', '*'];
    let e1 = vec!['\\', '*'];
    let star = vec!['*'];
    let marker = vec!['a', 'l', 'l', 'O', 'n', 'l', 'y', '*'];
    assert(e3@ =~= seq!['\\', '\\', '\\', '*']);
    assert(e2@ =~= seq!['\\', '\\', '*']);
    assert(e1@ =~= seq!['\\', '*']);
    assert(star@ =~= seq!['*']);
    assert(marker@ =~= all_only_marker());
    let literal_asterisk = vec_ends_with(s, &e1) && !vec_ends_with(s, &e2);
    let starts_star = vec_starts_with(s, &star);
    let ends_star = vec_ends_with(s, &star);
    if vec_has_char(s, '?') || vec_ends_with(s, &e3) || (!vec_all_ascii(s) && has_star) {
        None
    } else if vec_starts_with(s, &marker) && ends_star && w == 2 {
        proof {
            assert(s@.subrange(0, 8)[7] == '*');
            assert(s@[7] == '*');
            assert(n >= 9) by {
                if n == 8 {
                    assert(s@ =~= all_only_marker());
                    reveal_with_fuel(count_char, 9);
                    assert(count_char(all_only_marker(), '*') == 1);
                }
            }
        }
        Some(FastMatch::AllOnly(folded(collapse_range(s, 8, n - 1), ignore_case)))
    } else if starts_star && ends_star && w == 2 && !literal_asterisk {
        proof {
            assert(n >= 2) by {
                if n == 1 {
                    assert(count_char(s@, '*') == count_char(s@.drop_last(), '*') + 1);
                    assert(s@.drop_last() =~= Seq::<char>::empty());
                }
            }
        }
        Some(FastMatch::Contains(folded(collapse_range(s, 1, n - 1), ignore_case)))
    } else if starts_star && w == 1 && !literal_asterisk {
        Some(FastMatch::EndsWith(string_of(&collapse_range(s, 1, n))))
    } else if ends_star && w == 1 && !literal_asterisk {
        Some(FastMatch::StartsWith(string_of(&collapse_range(s, 0, n - 1))))
    } else if has_star {
        None
    } else {
        proof {
            assert(s@.subrange(0, n as int) =~= s@);
        }
        Some(FastMatch::Exact(string_of(&collapse_range(s, 0, n))))
    }
}


/// ASCII upper-case letters mapped to lower case; every other byte kept.
pub open spec fn ascii_lower(b: u8) -> u8 {
    if 65 <= b <= 90 {
        (b + 32) as u8
    } else {
        b
    }
}

/// Byte sequences of equal length that agree up to ASCII case.
pub open spec fn eq_ignore_ascii_case(a: Seq<u8>, b: Seq<u8>) -> bool {
    a.len() == b.len() && forall|i: int| 0 <= i < a.len() ==> ascii_lower(a[i]) == ascii_lower(b[i])
}

/// The verdict of one fast check on value `v`; `None` asks for the regex instead.
pub open spec fn fast_single(f: FastSpec, v: Seq<char>) -> Option<bool> {
    let vb = encode_utf8(v);
    match f {
        FastSpec::Exact(s) => Some(eq_ignore_ascii_case(vb, encode_utf8(s))),
        FastSpec::StartsWith(s) => {
            let sb = encode_utf8(s);
            if sb.len() > vb.len() {
                Some(false)
            } else if all_ascii(v) {
                Some(eq_ignore_ascii_case(sb, vb.subrange(0, sb.len() as int)))
            } else {
                None
            }
        },
        FastSpec::EndsWith(s) => {
            let sb = encode_utf8(s);
            if sb.len() > vb.len() {
                Some(false)
            } else if all_ascii(v) {
                Some(eq_ignore_ascii_case(sb, vb.subrange(vb.len() - sb.len(), vb.len() as int)))
            } else {
                None
            }
        },
        FastSpec::Contains(s) => Some(bytes_contain(encode_utf8(lower_of(v)), encode_utf8(s))),
        FastSpec::AllOnly(s) => Some(bytes_contain(encode_utf8(lower_of(v)), encode_utf8(s))),
    }
}

/// `f` is a `Contains` entry that occurs, byte for byte, in `v`.
pub open spec fn contains_hit(f: FastSpec, v: Seq<char>) -> bool {
    match f {
        FastSpec::Contains(s) => bytes_contain(encode_utf8(v), encode_utf8(s)),
        _ => false,
    }
}

/// Some `Contains` entry of `fs` occurs, byte for byte, in `v`.
pub open spec fn any_contains(fs: Seq<FastSpec>, v: Seq<char>) -> bool {
    exists|i: int| 0 <= i < fs.len() && #[trigger] contains_hit(fs[i], v)
}

/// The verdict of a list of fast checks: one entry decides alone, several
/// are alternatives of which any `Contains` may hit.
pub open spec fn fast_result(fs: Seq<FastSpec>, v: Seq<char>) -> Option<bool> {
    if fs.len() == 1 {
        fast_single(fs[0], v)
    } else {
        Some(any_contains(fs, v))
    }
}

/// One of the spans covers the whole value of byte length `len`.
pub open spec fn has_full_span(spans: Seq<(usize, usize)>, len: int) -> bool {
    exists|k: int| 0 <= k < spans.len() && spans[k].0 == 0 && spans[k].1 == len
}

/// The regex `p` matches all of `v`.
pub open spec fn regex_full_match_spec(p: Seq<char>, v: Seq<char>) -> bool {
    has_full_span(regex_match_spans(p, v), encode_utf8(v).len() as int)
}

/// Matches one field value against a pattern and its modifiers.
pub struct DefaultMatcher {
    pub re: Option<CompiledRegex>,
    pub fast_match: Option<Vec<FastMatch>>,
    pub cidr: Option<CidrNetwork>,
    pub pipes: Vec<PipeElement>,
    pub key_list: Vec<String>,
}

/// The views of a list of fast checks.
pub open spec fn fast_views(fs: Seq<FastMatch>) -> Seq<FastSpec> {
    fs.map_values(|f: FastMatch| f@)
}

/// The views of a list of texts.
pub open spec fn text_views(ks: Seq<String>) -> Seq<Seq<char>> {
    ks.map_values(|k: String| k@)
}

impl DefaultMatcher {
    /// The fast checks, as values.
    pub open spec fn fast_spec(&self) -> Option<Seq<FastSpec>> {
        match self.fast_match {
            Some(fs) => Some(fast_views(fs@)),
            None => None,
        }
    }

    /// The pattern the regex was compiled from, if there is a regex.
    pub open spec fn regex_spec(&self) -> Option<Seq<char>> {
        match self.re {
            Some(c) => Some(c.source()),
            None => None,
        }
    }

    /// Whether the matcher accepts the field value `v` (`None`: the field is absent).
    pub open spec fn matches_spec(&self, v: Option<Seq<char>>) -> bool {
        if self.pipes@.len() > 0 && self.pipes@[0] == PipeElement::Cidr {
            match self.cidr {
                Some(c) => match v {
                    Some(x) => cidr_hit(c.source(), x),
                    None => false,
                },
                None => false,
            }
        } else if self.re is None && self.fast_match is None {
            false
        } else if v is None {
            false
        } else if self.key_list@.len() == 0 {
            match self.regex_spec() {
                Some(p) => regex_finds(p, v->0),
                None => false,
            }
        } else {
            let fr = match self.fast_spec() {
                Some(fs) => fast_result(fs, v->0),
                None => None,
            };
            match fr {
                Some(b) => b,
                None => match self.regex_spec() {
                    Some(p) => regex_full_match_spec(p, v->0),
                    None => false,
                },
            }
        }
    }

    /// A matcher with no pattern yet; it matches nothing.
    pub fn new() -> (r: DefaultMatcher)
        ensures
            r.re is None,
            r.fast_match is None,
            r.cidr is None,
            r.pipes@.len() == 0,
            r.key_list@.len() == 0,
    {
        DefaultMatcher {
            re: None,
            fast_match: None,
            cidr: None,
            pipes: Vec::new(),
            key_list: Vec::new(),
        }
    }

    /// Whether the key list addresses a value this matcher reads: a plain
    /// field, or a field followed by `value`.
    pub fn is_target_key(&self, key_list: &Vec<String>) -> (r: bool)
        ensures
            r == (key_list@.len() <= 1 || key_list@[1]@ == "value"@),
    {
        if key_list.len() <= 1 {
            return true;
        }
        crate::text::text_eq(key_list[1].as_str(), "value")
    }

    fn is_regex_fullmatch(c: &CompiledRegex, value: &str) -> (r: bool)
        ensures
            r == regex_full_match_spec(c.source(), value@),
    {
        let spans = regex_spans(c, value);
        let len = value.as_bytes().len();
        let mut k: usize = 0;
        while k < spans.len()
            invariant
                spans@ == regex_match_spans(c.source(), value@),
                len == encode_utf8(value@).len(),
                k <= spans@.len(),
                forall|j: int| 0 <= j < k ==> !(spans@[j].0 == 0 && spans@[j].1 == len),
            decreases spans@.len() - k,
        {
            if spans[k].0 == 0 && spans[k].1 == len {
                return true;
            }
            k = k + 1;
        }
        false
    }

    /// `match_str` and the `len` bytes of `value` from `off` agree up to ASCII case.
    fn ascii_eq_at(value: &[u8], off: usize, match_str: &[u8]) -> (r: bool)
        requires
            off + match_str@.len() <= value@.len(),
        ensures
            r == eq_ignore_ascii_case(
                match_str@,
                value@.subrange(off as int, off + match_str@.len()),
            ),
    {
        let n = value.len();
        let mut i: usize = 0;
        while i < match_str.len()
            invariant
                n == value@.len(),
                off + match_str@.len() <= value@.len(),
                i <= match_str@.len(),
                forall|j: int|
                    0 <= j < i ==> ascii_lower(match_str@[j]) == ascii_lower(value@[off + j]),
            decreases match_str@.len() - i,
        {
            let a = match_str[i];
            let b = value[off + i];
            let la = if 65 <= a && a <= 90 { a + 32 } else { a };
            let lb = if 65 <= b && b <= 90 { b + 32 } else { b };
            if la != lb {
                return false;
            }
            i = i + 1;
        }
        true
    }

    fn eq_ignore_case(event_value_str: &str, match_str: &str) -> (r: bool)
        ensures
            r == eq_ignore_ascii_case(encode_utf8(event_value_str@), encode_utf8(match_str@)),
    {
        let v = event_value_str.as_bytes();
        let m = match_str.as_bytes();
        if m.len() == v.len() {
            let r = Self::ascii_eq_at(v, 0, m);
            assert(v@.subrange(0, m@.len() as int) =~= v@);
            r
        } else {
            false
        }
    }

    fn starts_with_ignore_case(event_value_str: &str, match_str: &str) -> (r: Option<bool>)
        ensures
            r == fast_single(FastSpec::StartsWith(match_str@), event_value_str@),
    {
        let v = event_value_str.as_bytes();
        let m = match_str.as_bytes();
        if m.len() > v.len() {
            return Some(false);
        }
        if event_value_str.is_ascii() {
            Some(Self::ascii_eq_at(v, 0, m))
        } else {
            None
        }
    }

    fn ends_with_ignore_case(event_value_str: &str, match_str: &str) -> (r: Option<bool>)
        ensures
            r == fast_single(FastSpec::EndsWith(match_str@), event_value_str@),
    {
        let v = event_value_str.as_bytes();
        let m = match_str.as_bytes();
        if m.len() > v.len() {
            return Some(false);
        }
        if event_value_str.is_ascii() {
            Some(Self::ascii_eq_at(v, v.len() - m.len(), m))
        } else {
            None
        }
    }

    fn fast_verdict(fast_matcher: &Vec<FastMatch>, value: &str) -> (r: Option<bool>)
        ensures
            r == fast_result(fast_views(fast_matcher@), value@),
    {
        let ghost fs = fast_views(fast_matcher@);
        if fast_matcher.len() == 1 {
            match &fast_matcher[0] {
                FastMatch::Exact(s) => Some(Self::eq_ignore_case(value, s.as_str())),
                FastMatch::StartsWith(s) => Self::starts_with_ignore_case(value, s.as_str()),
                FastMatch::EndsWith(s) => Self::ends_with_ignore_case(value, s.as_str()),
                FastMatch::Contains(s) => {
                    let low = lowercase(value);
                    Some(contains_str(low.as_str(), s.as_str()))
                },
                FastMatch::AllOnly(s) => {
                    let low = lowercase(value);
                    Some(contains_str(low.as_str(), s.as_str()))
                },
            }
        } else {
            let mut i: usize = 0;
            while i < fast_matcher.len()
                invariant
                    fs == fast_views(fast_matcher@),
                    fs.len() == fast_matcher@.len(),
                    fs.len() != 1,
                    i <= fs.len(),
                    forall|j: int| 0 <= j < i ==> !#[trigger] contains_hit(fs[j], value@),
                decreases fs.len() - i,
            {
                match &fast_matcher[i] {
                    FastMatch::Contains(s) => {
                        if contains_str(value, s.as_str()) {
                            assert(fs[i as int] == FastSpec::Contains(s@));
                            assert(contains_hit(fs[i as int], value@));
                            assert(any_contains(fs, value@));
                            return Some(true);
                        }
                    },
                    _ => {},
                }
                i = i + 1;
            }
            Some(false)
        }
    }

    /// Whether the field value matches.
    pub fn is_match(&self, event_value: Option<&String>) -> (r: bool)
        ensures
            r == self.matches_spec(
                match event_value {
                    Some(s) => Some(s@),
                    None => None,
                },
            ),
    {
        if self.pipes.len() > 0 && self.pipes[0] == PipeElement::Cidr {
            return match &self.cidr {
                Some(c) => match event_value {
                    Some(s) => cidr_contains(c, s.as_str()),
                    None => false,
                },
                None => false,
            };
        }
        if self.re.is_none() && self.fast_match.is_none() {
            return false;
        }
        let value = match event_value {
            Some(s) => s,
            None => {
                return false;
            },
        };
        if self.key_list.len() == 0 {
            return match &self.re {
                Some(c) => regex_search(c, value.as_str()),
                None => false,
            };
        }
        let verdict = match &self.fast_match {
            Some(fs) => Self::fast_verdict(fs, value.as_str()),
            None => None,
        };
        match verdict {
            Some(b) => b,
            None => match &self.re {
                Some(c) => Self::is_regex_fullmatch(c, value.as_str()),
                None => false,
            },
        }
    }
}


/// The position of the first `=` in `e` at or after `k`, or 0 when there is none.
pub open spec fn first_pad(e: Seq<char>, k: int) -> int
    decreases e.len() - k,
{
    if k < 0 || k >= e.len() {
        0
    } else if e[k] == '=' {
        k
    } else {
        first_pad(e, k + 1)
    }
}

/// `n` zero bytes.
pub open spec fn zeros(n: nat) -> Seq<u8> {
    Seq::new(n, |j: int| 0u8)
}

/// The base64 text of `x` shifted by `i` bytes, with the characters that
/// depend on the neighbouring bytes cut off; `None` when nothing is left.
pub open spec fn base64_piece(x: Seq<char>, i: int) -> Option<Seq<char>> {
    let e = base64_of(zeros(i as nat) + encode_utf8(x));
    let p = first_pad(e, 0);
    let t: int = if p % 4 == 2 {
        3
    } else if p % 4 == 3 {
        2
    } else {
        0
    };
    let start: int = if i == 0 {
        0
    } else {
        i + 1
    };
    if t <= e.len() && start <= e.len() - t {
        Some(e.subrange(start, e.len() - t))
    } else {
        None
    }
}

/// The fast check for the base64 piece at offset `i`, if any.
pub open spec fn base64_fast(x: Seq<char>, i: int) -> Seq<FastSpec> {
    match base64_piece(x, i) {
        Some(b) => match fast_of(seq!['*'] + b + seq!['*'], false) {
            Some(f) => seq![f],
            None => seq![],
        },
        None => seq![],
    }
}

/// The fast checks of a `base64offset|contains` pattern: one for each byte offset.
pub open spec fn base64_entries(x: Seq<char>) -> Seq<FastSpec> {
    base64_fast(x, 0) + base64_fast(x, 1) + base64_fast(x, 2)
}

fn base64_offset_entry(pattern: &str, i: usize) -> (r: Option<FastMatch>)
    requires
        i <= 2,
    ensures
        match r {
            Some(f) => base64_fast(pattern@, i as int) == seq![f@],
            None => base64_fast(pattern@, i as int) == Seq::<FastSpec>::empty(),
        },
{
    let pb = pattern.as_bytes();
    let mut target: Vec<u8> = Vec::new();
    let mut j: usize = 0;
    while j < i
        invariant
            j <= i,
            target@ == zeros(j as nat),
        decreases i - j,
    {
        target.push(0u8);
        j = j + 1;
        assert(target@ =~= zeros(j as nat));
    }
    let mut k: usize = 0;
    while k < pb.len()
        invariant
            k <= pb@.len(),
            pb@ == encode_utf8(pattern@),
            target@ == zeros(i as nat) + pb@.subrange(0, k as int),
        decreases pb@.len() - k,
    {
        target.push(pb[k]);
        k = k + 1;
        assert(target@ =~= zeros(i as nat) + pb@.subrange(0, k as int));
    }
    assert(pb@.subrange(0, pb@.len() as int) =~= pb@);
    let encoded = base64_encode(target.as_slice());
    let e = crate::text::chars_of(encoded.as_str());
    let n = e.len();
    let ghost es = e@;
    let mut p: usize = 0;
    let mut q: usize = 0;
    while q < n
        invariant_except_break
            p == 0,
        invariant
            n == e@.len(),
            q <= n,
            first_pad(es, 0) == first_pad(es, q as int),
            es == e@,
        ensures
            p as int == first_pad(es, 0),
        decreases n - q,
    {
        if e[q] == '=' {
            p = q;
            break;
        }
        q = q + 1;
    }
    let t: usize = if p % 4 == 2 {
        3
    } else if p % 4 == 3 {
        2
    } else {
        0
    };
    let start: usize = if i == 0 {
        0
    } else {
        i + 1
    };
    if t <= n && start <= n - t {
        let mut wrapped = vec!['*'];
        let mut piece = subvec(&e, start, n - t);
        wrapped.append(&mut piece);
        wrapped.push('*');
        assert(wrapped@ =~= seq!['*'] + es.subrange(start as int, n - t) + seq!['*']);
        convert_to_fast_match(&wrapped, false)
    } else {
        None
    }
}

fn base64_fast_matches(pattern: &str) -> (r: Vec<FastMatch>)
    ensures
        fast_views(r@) == base64_entries(pattern@),
{
    let mut out: Vec<FastMatch> = Vec::new();
    let mut i: usize = 0;
    while i < 3
        invariant
            i <= 3,
            fast_views(out@) == (if i == 0 {
                Seq::<FastSpec>::empty()
            } else if i == 1 {
                base64_fast(pattern@, 0)
            } else if i == 2 {
                base64_fast(pattern@, 0) + base64_fast(pattern@, 1)
            } else {
                base64_entries(pattern@)
            }),
        decreases 3 - i,
    {
        let ghost before = fast_views(out@);
        match base64_offset_entry(pattern, i) {
            Some(f) => {
                out.push(f);
                assert(fast_views(out@) =~= before + seq![f@]);
            },
            None => {
                assert(before + base64_fast(pattern@, i as int) =~= before);
            },
        }
        i = i + 1;
    }
    out
}


/// The text a scalar YAML value stands for; `None` for anything else.
pub open spec fn scalar_text(v: YamlValue) -> Option<Seq<char>> {
    match v {
        YamlValue::Boolean(b) => Some(
            if b {
                "true"@
            } else {
                "false"@
            },
        ),
        YamlValue::Integer(i) => Some(decimal(i as int)),
        YamlValue::Real(s) => Some(s@),
        YamlValue::Str(s) => Some(s@),
        _ => None,
    }
}

/// The modifier names of a key list: the `|`-separated segments after the
/// field name in its first key, where a lone `|all` reads as `allOnly`.
pub open spec fn modifier_names(keys: Seq<Seq<char>>) -> Seq<Seq<char>> {
    let parts = split_bar(
        if keys.len() > 0 {
            keys[0]
        } else {
            Seq::<char>::empty()
        },
    );
    if parts.len() == 2 && parts[0].len() == 0 && parts[1] == "all"@ {
        seq!["allOnly"@]
    } else {
        parts.drop_first()
    }
}

/// Every name is a known modifier.
pub open spec fn all_known(names: Seq<Seq<char>>) -> bool {
    forall|i: int| 0 <= i < names.len() ==> (#[trigger] pipe_of_name(names[i])) is Some
}

/// The modifiers the names stand for.
pub open spec fn named_pipes(names: Seq<Seq<char>>) -> Seq<PipeElement> {
    names.map_values(|k: Seq<char>| pipe_of_name(k)->0)
}

/// One optional fast check as an optional list.
pub open spec fn single(o: Option<FastSpec>) -> Option<Seq<FastSpec>> {
    match o {
        Some(f) => Some(seq![f]),
        None => None,
    }
}

/// The fast checks for pattern `p` under the modifiers `pipes`.
pub open spec fn fast_for(p: Seq<char>, pipes: Seq<PipeElement>) -> Option<Seq<FastSpec>> {
    if pipes.len() == 0 {
        single(fast_of(p, true))
    } else if pipes.len() == 1 {
        match pipes[0] {
            PipeElement::Startswith => single(fast_of(p + seq!['*'], true)),
            PipeElement::Endswith => single(fast_of(seq!['*'] + p, true)),
            PipeElement::Contains => single(fast_of(seq!['*'] + p + seq!['*'], true)),
            PipeElement::AllOnly => single(fast_of(all_only_marker() + p + seq!['*'], true)),
            _ => None,
        }
    } else if pipes.len() == 2 {
        if pipes[0] == PipeElement::Base64offset && pipes[1] == PipeElement::Contains {
            if base64_entries(p).len() > 0 {
                Some(base64_entries(p))
            } else {
                None
            }
        } else if pipes[0] == PipeElement::Contains && pipes[1] == PipeElement::All {
            single(fast_of(seq!['*'] + p + seq!['*'], true))
        } else {
            None
        }
    } else {
        None
    }
}

/// A matcher on a named field whose first fast check is `Exact` or `Contains` needs no regex.
pub open spec fn skips_regex(fast: Option<Seq<FastSpec>>, keys: Seq<Seq<char>>) -> bool {
    match fast {
        Some(fs) => fs.len() > 0 && (fs[0] is Exact || fs[0] is Contains) && keys.len() > 0,
        None => false,
    }
}

/// The modifiers the regex is built with: a wildcard step is added unless `re` is present.
pub open spec fn regex_pipes(pipes: Seq<PipeElement>) -> Seq<PipeElement> {
    if pipes.contains(PipeElement::Re) {
        pipes
    } else {
        pipes.push(PipeElement::Wildcard)
    }
}

/// How many of the names are not modifiers.
pub open spec fn unknown_count(names: Seq<Seq<char>>) -> nat
    decreases names.len(),
{
    if names.len() == 0 {
        0
    } else {
        unknown_count(names.drop_last()) + if pipe_of_name(names.last()) is None {
            1nat
        } else {
            0nat
        }
    }
}

/// The errors a key list and a non-null value give when they make no matcher:
/// a non-scalar value; else one error per unknown modifier; else a bad network
/// for `cidr`; else too many modifiers; else a regex that does not compile.
pub open spec fn init_errors(keys: Seq<Seq<char>>, v: YamlValue) -> Seq<Seq<char>> {
    let pat = scalar_text(v);
    let names = modifier_names(keys);
    let pipes = named_pipes(names);
    if pat is None {
        seq!["A selection value must be a scalar."@]
    } else if !all_known(names) {
        Seq::new(unknown_count(names), |i: int| "An unknown pipe element was specified. key:"@)
    } else if pipes.contains(PipeElement::Cidr) && !cidr_accepts(pat->0) {
        seq!["Cannot parse the network of a cidr modifier."@]
    } else if pipes.len() > 2 {
        seq!["Multiple pipe elements cannot be used. key:"@]
    } else {
        seq!["Cannot parse regex."@]
    }
}

/// The conditions under which a key list and a non-null value make a matcher.
pub open spec fn init_succeeds(keys: Seq<Seq<char>>, v: YamlValue) -> bool {
    let pat = scalar_text(v);
    let names = modifier_names(keys);
    let pipes = named_pipes(names);
    &&& pat is Some
    &&& all_known(names)
    &&& pipes.contains(PipeElement::Cidr) ==> cidr_accepts(pat->0)
    &&& pipes.len() <= 2
    &&& skips_regex(fast_for(pat->0, pipes), keys) || regex_accepts(
        apply_pipes(pat->0, regex_pipes(pipes)),
    )
}

fn has_pipe(pipes: &Vec<PipeElement>, e: PipeElement) -> (r: bool)
    ensures
        r == pipes@.contains(e),
{
    let mut i: usize = 0;
    while i < pipes.len()
        invariant
            i <= pipes@.len(),
            forall|j: int| 0 <= j < i ==> pipes@[j] != e,
        decreases pipes@.len() - i,
    {
        if pipes[i] == e {
            return true;
        }
        i = i + 1;
    }
    false
}

fn single_vec(o: Option<FastMatch>) -> (r: Option<Vec<FastMatch>>)
    ensures
        match r {
            Some(v) => single(
                match o {
                    Some(f) => Some(f@),
                    None => None,
                },
            ) == Some(fast_views(v@)),
            None => o is None,
        },
{
    match o {
        Some(f) => {
            let v = vec![f];
            assert(fast_views(v@) =~= seq![v@[0]@]);
            Some(v)
        },
        None => None,
    }
}

impl DefaultMatcher {
    /// This matcher is the one compiled from the key list `keys` and value `v`.
    pub open spec fn compiled_from(&self, keys: Seq<Seq<char>>, v: YamlValue) -> bool {
        &&& text_views(self.key_list@) == keys
        &&& if v is Null {
            &&& self.re is None
            &&& self.fast_match is None
            &&& self.cidr is None
            &&& self.pipes@.len() == 0
        } else {
            let pat = scalar_text(v)->0;
            let pipes = named_pipes(modifier_names(keys));
            let fast = fast_for(pat, pipes);
            &&& self.fast_spec() == fast
            &&& if pipes.contains(PipeElement::Cidr) {
                self.cidr matches Some(c) && c.source() == pat
            } else {
                self.cidr is None
            }
            &&& if skips_regex(fast, keys) {
                self.re is None && self.pipes@ == pipes
            } else {
                self.pipes@ == regex_pipes(pipes) && self.regex_spec() == Some(
                    apply_pipes(pat, regex_pipes(pipes)),
                )
            }
        }
    }

    /// Compiles the pattern `select_value` for the field key list `key_list`.
    #[verifier::rlimit(60)]
    pub fn init(&mut self, key_list: &Vec<String>, select_value: &YamlValue) -> (r: Result<
        (),
        Vec<String>,
    >)
        ensures
            r is Ok <==> (select_value is Null || init_succeeds(
                text_views(key_list@),
                *select_value,
            )),
            r is Ok ==> final(self).compiled_from(text_views(key_list@), *select_value),
            r matches Err(es) ==> es@.len() > 0 && text_views(es@) == init_errors(
                text_views(key_list@),
                *select_value,
            ),
    {
        let ghost keys = text_views(key_list@);
        let mut keys_copy: Vec<String> = Vec::new();
        let mut i: usize = 0;
        while i < key_list.len()
            invariant
                i <= key_list@.len(),
                text_views(keys_copy@) == text_views(key_list@.subrange(0, i as int)),
            decreases key_list@.len() - i,
        {
            let ghost before = keys_copy@;
            let c = key_list[i].clone();
            keys_copy.push(c);
            assert(keys_copy@ =~= before.push(c));
            assert(key_list@.subrange(0, i + 1) =~= key_list@.subrange(0, i as int).push(key_list@[i as int]));
            assert(text_views(keys_copy@) =~= text_views(before).push(c@));
            i = i + 1;
            assert(text_views(keys_copy@) =~= text_views(key_list@.subrange(0, i as int)));
        }
        assert(key_list@.subrange(0, key_list@.len() as int) =~= key_list@);
        self.key_list = keys_copy;
        self.re = None;
        self.fast_match = None;
        self.cidr = None;
        self.pipes = Vec::new();
        let pattern: String = match select_value {
            YamlValue::Null => {
                return Ok(());
            },
            YamlValue::Boolean(b) => if *b {
                String::from_str("true")
            } else {
                String::from_str("false")
            },
            YamlValue::Integer(n) => i64_text(*n),
            YamlValue::Real(s) => s.clone(),
            YamlValue::Str(s) => s.clone(),
            _ => {
                let es = vec![String::from_str("A selection value must be a scalar.")];
                assert(text_views(es@) =~= seq!["A selection value must be a scalar."@]);
                return Err(es);
            },
        };
        let ghost pat = pattern@;
        assert(scalar_text(*select_value) == Some(pat));
        let first: String = if key_list.len() > 0 {
            key_list[0].clone()
        } else {
            String::new()
        };
        let keys_all = split_on_bar(first.as_str());
        let ghost parts = split_bar(first@);
        assert(parts == split_bar(
            if keys.len() > 0 {
                keys[0]
            } else {
                Seq::<char>::empty()
            },
        ));
        let mut names: Vec<String> = Vec::new();
        if keys_all.len() == 2 && keys_all[0].as_str().is_empty() && crate::text::text_eq(
            keys_all[1].as_str(),
            "all",
        ) {
            assert(parts[0].len() == 0 && parts[1] == "all"@);
            names.push(String::from_str("allOnly"));
            assert(text_views(names@) =~= seq!["allOnly"@]);
        } else {
            let mut j: usize = 1;
            proof {
                crate::chars::lemma_split_bar_nonempty(first@);
            }
            while j < keys_all.len()
                invariant
                    1 <= j <= keys_all@.len(),
                    text_views(keys_all@) == parts,
                    text_views(names@) == parts.subrange(1, j as int),
                decreases keys_all@.len() - j,
            {
                let ghost before = names@;
                let c = keys_all[j].clone();
                names.push(c);
                assert(names@ =~= before.push(c));
                assert(text_views(names@) =~= text_views(before).push(c@));
                assert(c@ == parts[j as int]);
                j = j + 1;
                assert(text_views(names@) =~= parts.subrange(1, j as int));
            }
            assert(parts.subrange(1, parts.len() as int) =~= parts.drop_first());
        }
        let ghost nm = text_views(names@);
        assert(nm == modifier_names(keys));
        let mut pipes: Vec<PipeElement> = Vec::new();
        let mut errs: Vec<String> = Vec::new();
        let mut k: usize = 0;
        while k < names.len()
            invariant
                k <= names@.len(),
                nm == text_views(names@),
                errs@.len() == 0 <==> all_known(nm.subrange(0, k as int)),
                text_views(errs@) == Seq::new(
                    unknown_count(nm.subrange(0, k as int)),
                    |i: int| "An unknown pipe element was specified. key:"@,
                ),
                all_known(nm.subrange(0, k as int)) ==> pipes@ == named_pipes(
                    nm.subrange(0, k as int),
                ),
            decreases names@.len() - k,
        {
            let ghost pre = nm.subrange(0, k as int);
            let ghost post = nm.subrange(0, k + 1);
            let ghost old_errs = errs@;
            assert(post =~= pre.push(nm[k as int]));
            assert(post.drop_last() =~= pre);
            match PipeElement::new(names[k].as_str()) {
                Ok(e) => {
                    pipes.push(e);
                    proof {
                        if all_known(pre) {
                            assert forall|x: int| 0 <= x < post.len() implies (#[trigger] pipe_of_name(
                                post[x],
                            )) is Some by {
                                if x < pre.len() {
                                    assert(post[x] == pre[x]);
                                }
                            }
                            assert(pipes@ =~= named_pipes(post));
                        } else {
                            let x = choose|x: int| 0 <= x < pre.len() && !((#[trigger] pipe_of_name(pre[x])) is Some);
                            assert(post[x] == pre[x]);
                        }
                    }
                },
                Err(m) => {
                    errs.push(m);
                    assert(!(pipe_of_name(post[k as int]) is Some));
                    assert(text_views(errs@) =~= text_views(old_errs).push(m@));
                    assert(text_views(errs@) =~= Seq::new(
                        unknown_count(post),
                        |i: int| "An unknown pipe element was specified. key:"@,
                    ));
                },
            }
            k = k + 1;
        }
        assert(nm.subrange(0, names@.len() as int) =~= nm);
        let ghost gp = named_pipes(nm);
        if errs.len() > 0 {
            return Err(errs);
        }
        assert(pipes@ == gp);
        let has_cidr = has_pipe(&pipes, PipeElement::Cidr);
        let mut network: Option<CidrNetwork> = None;
        if has_cidr {
            match parse_cidr(pattern.as_str()) {
                Some(c) => {
                    network = Some(c);
                },
                None => {
                    let es = vec![String::from_str("Cannot parse the network of a cidr modifier.")];
                    assert(text_views(es@) =~= seq!["Cannot parse the network of a cidr modifier."@]);
                    return Err(es);
                },
            }
        }
        let pchars = crate::text::chars_of(pattern.as_str());
        let n = pipes.len();
        let fast: Option<Vec<FastMatch>> = if n == 0 {
            single_vec(convert_to_fast_match(&pchars, true))
        } else if n == 1 {
            let mut wrapped: Vec<char> = Vec::new();
            match pipes[0] {
                PipeElement::Startswith => {
                    let mut body = pchars.clone();
                    wrapped.append(&mut body);
                    wrapped.push('*');
                    assert(wrapped@ =~= pat + seq!['*']);
                },
                PipeElement::Endswith => {
                    let mut body = pchars.clone();
                    wrapped.push('*');
                    wrapped.append(&mut body);
                    assert(wrapped@ =~= seq!['*'] + pat);
                },
                PipeElement::Contains => {
                    let mut body = pchars.clone();
                    wrapped.push('*');
                    wrapped.append(&mut body);
                    wrapped.push('*');
                    assert(wrapped@ =~= seq!['*'] + pat + seq!['*']);
                },
                PipeElement::AllOnly => {
                    let mut body = pchars.clone();
                    wrapped = vec!['a', 'l', 'l', 'O', 'n', 'l', 'y', '*'];
                    wrapped.append(&mut body);
                    wrapped.push('*');
                    assert(wrapped@ =~= all_only_marker() + pat + seq!['*']);
                },
                _ => {},
            }
            if pipes[0] == PipeElement::Startswith || pipes[0] == PipeElement::Endswith
                || pipes[0] == PipeElement::Contains || pipes[0] == PipeElement::AllOnly {
                single_vec(convert_to_fast_match(&wrapped, true))
            } else {
                None
            }
        } else if n == 2 {
            if pipes[0] == PipeElement::Base64offset && pipes[1] == PipeElement::Contains {
                let entries = base64_fast_matches(pattern.as_str());
                if entries.len() > 0 {
                    Some(entries)
                } else {
                    None
                }
            } else if pipes[0] == PipeElement::Contains && pipes[1] == PipeElement::All {
                let mut wrapped: Vec<char> = Vec::new();
                let mut body = pchars.clone();
                wrapped.push('*');
                wrapped.append(&mut body);
                wrapped.push('*');
                assert(wrapped@ =~= seq!['*'] + pat + seq!['*']);
                single_vec(convert_to_fast_match(&wrapped, true))
            } else {
                None
            }
        } else {
            let es = vec![String::from_str("Multiple pipe elements cannot be used. key:")];
            assert(text_views(es@) =~= seq!["Multiple pipe elements cannot be used. key:"@]);
            return Err(es);
        };
        let ghost fast_view = match &fast {
            Some(fs) => Some(fast_views(fs@)),
            None => None,
        };
        assert(fast_view == fast_for(pat, gp));
        let skip = match &fast {
            Some(fs) => fs.len() > 0 && (match &fs[0] {
                FastMatch::Exact(_) => true,
                FastMatch::Contains(_) => true,
                _ => false,
            }) && key_list.len() > 0,
            None => false,
        };
        assert(skip == skips_regex(fast_for(pat, gp), keys));
        self.fast_match = fast;
        self.cidr = network;
        if skip {
            self.pipes = pipes;
            return Ok(());
        }
        if !has_pipe(&pipes, PipeElement::Re) {
            pipes.push(PipeElement::Wildcard);
        }
        assert(pipes@ == regex_pipes(gp));
        let regex_text = from_pattern_to_regex_str(pchars, &pipes);
        let regex_string = string_of(&regex_text);
        self.pipes = pipes;
        match compile_regex(regex_string.as_str()) {
            Some(c) => {
                self.re = Some(c);
                Ok(())
            },
            None => {
                let es = vec![String::from_str("Cannot parse regex.")];
                assert(text_views(es@) =~= seq!["Cannot parse regex."@]);
                Err(es)
            },
        }
    }
}

} // verus!
