//! Compiles a rule's `condition` expression into a selection tree.
use crate::chars::{split_bar, split_on_bar, starts_with, subvec, vec_starts_with};
use crate::matchers::text_views;
use crate::record::LogRecord;
use crate::text::{chars_of, string_of};
use crate::selectionnodes::{
    AndSelectionNode, NotSelectionNode, OrSelectionNode, RefSelectionNode, SelectionNode,
};
use std::sync::Arc;
use vstd::prelude::*;

verus! {

/// A token of a condition, or a group of tokens made while parsing.
pub enum ConditionToken {
    LeftParenthesis,
    RightParenthesis,
    Space,
    Not,
    And,
    Or,
    SelectionReference(String),
    ParenthesisContainer(Vec<ConditionToken>),
    AndContainer(Vec<ConditionToken>),
    OrContainer(Vec<ConditionToken>),
    NotContainer(Vec<ConditionToken>),
    OperandContainer(Vec<ConditionToken>),
}

/// The mathematical content of a `ConditionToken`.
pub enum TokenSpec {
    LeftParenthesis,
    RightParenthesis,
    Space,
    Not,
    And,
    Or,
    SelectionReference(Seq<char>),
    ParenthesisContainer(Seq<TokenSpec>),
    AndContainer(Seq<TokenSpec>),
    OrContainer(Seq<TokenSpec>),
    NotContainer(Seq<TokenSpec>),
    OperandContainer(Seq<TokenSpec>),
}

/// The contents of a list of tokens.
pub open spec fn token_views(s: Seq<ConditionToken>) -> Seq<TokenSpec>
    decreases s,
{
    if s.len() == 0 {
        Seq::<TokenSpec>::empty()
    } else {
        token_views(s.drop_last()).push(s.last().spec_view())
    }
}

impl ConditionToken {
    pub open spec fn spec_view(&self) -> TokenSpec
        decreases self,
    {
        match self {
            ConditionToken::LeftParenthesis => TokenSpec::LeftParenthesis,
            ConditionToken::RightParenthesis => TokenSpec::RightParenthesis,
            ConditionToken::Space => TokenSpec::Space,
            ConditionToken::Not => TokenSpec::Not,
            ConditionToken::And => TokenSpec::And,
            ConditionToken::Or => TokenSpec::Or,
            ConditionToken::SelectionReference(s) => TokenSpec::SelectionReference(s@),
            ConditionToken::ParenthesisContainer(v) => TokenSpec::ParenthesisContainer(
                token_views(v@),
            ),
            ConditionToken::AndContainer(v) => TokenSpec::AndContainer(
                token_views(v@),
            ),
            ConditionToken::OrContainer(v) => TokenSpec::OrContainer(
                token_views(v@),
            ),
            ConditionToken::NotContainer(v) => TokenSpec::NotContainer(
                token_views(v@),
            ),
            ConditionToken::OperandContainer(v) => TokenSpec::OperandContainer(
                token_views(v@),
            ),
        }
    }
}


/// `token_views` read element by element.
pub proof fn lemma_token_views(s: Seq<ConditionToken>)
    ensures
        token_views(s) == Seq::new(s.len(), |i: int| s[i].spec_view()),
    decreases s.len(),
{
    if s.len() > 0 {
        lemma_token_views(s.drop_last());
        assert(token_views(s) =~= Seq::new(s.len(), |i: int| s[i].spec_view()));
    } else {
        assert(token_views(s) =~= Seq::new(s.len(), |i: int| s[i].spec_view()));
    }
}

/// Appending a token appends its view.
pub proof fn lemma_views_push(s: Seq<ConditionToken>, x: ConditionToken)
    ensures
        token_views(s.push(x)) == token_views(s).push(x.spec_view()),
{
    assert(s.push(x).drop_last() =~= s);
}

/// `c` may stand in a selection name.
pub open spec fn is_word_char(c: char) -> bool {
    ('a' <= c && c <= 'z') || ('A' <= c && c <= 'Z') || ('0' <= c && c <= '9') || c == '_'
}

/// The length of the run of name characters in `s` from `i`.
pub open spec fn word_len(s: Seq<char>, i: int) -> nat
    decreases s.len() - i,
{
    if 0 <= i < s.len() && is_word_char(s[i]) {
        1 + word_len(s, i + 1)
    } else {
        0
    }
}

/// A run of name characters stays inside the text.
pub proof fn lemma_word_len_bound(s: Seq<char>, i: int)
    requires
        0 <= i <= s.len(),
    ensures
        i + word_len(s, i) <= s.len(),
    decreases s.len() - i,
{
    if i < s.len() && is_word_char(s[i]) {
        lemma_word_len_bound(s, i + 1);
    }
}

#[via_fn]
proof fn lex_from_decreases(s: Seq<char>, i: int) {
    if 0 <= i < s.len() {
        lemma_word_len_bound(s, i + 1);
    }
}

/// The token a bare word stands for: a keyword, or a selection name.
pub open spec fn word_token(w: Seq<char>) -> TokenSpec {
    if w == "not"@ {
        TokenSpec::Not
    } else if w == "and"@ {
        TokenSpec::And
    } else if w == "or"@ {
        TokenSpec::Or
    } else {
        TokenSpec::SelectionReference(w)
    }
}

/// The tokens of `s` from position `i`: parentheses, bare words, with spaces
/// skipped; `None` when some other character comes up.
pub open spec fn lex_from(s: Seq<char>, i: int) -> Option<Seq<TokenSpec>>
    decreases s.len() - i
    via lex_from_decreases
{
    if i < 0 || i >= s.len() {
        Some(Seq::<TokenSpec>::empty())
    } else if s[i] == '(' {
        match lex_from(s, i + 1) {
            Some(rest) => Some(seq![TokenSpec::LeftParenthesis] + rest),
            None => None,
        }
    } else if s[i] == ')' {
        match lex_from(s, i + 1) {
            Some(rest) => Some(seq![TokenSpec::RightParenthesis] + rest),
            None => None,
        }
    } else if s[i] == ' ' {
        lex_from(s, i + 1)
    } else if is_word_char(s[i]) {
        let n = 1 + word_len(s, i + 1);
        match lex_from(s, i + n) {
            Some(rest) => Some(seq![word_token(s.subrange(i, i + n))] + rest),
            None => None,
        }
    } else {
        None
    }
}

/// The tokens of a condition.
pub open spec fn lex(s: Seq<char>) -> Option<Seq<TokenSpec>> {
    lex_from(s, 0)
}

/// Index of the `)` that closes a group whose contents start at `i`, where
/// `depth` groups are open; -1 when it never closes.
pub open spec fn close_index(t: Seq<TokenSpec>, i: int, depth: int) -> int
    decreases t.len() - i,
{
    if i < 0 || i >= t.len() {
        -1
    } else if t[i] is LeftParenthesis {
        close_index(t, i + 1, depth + 1)
    } else if t[i] is RightParenthesis {
        if depth == 1 {
            i
        } else {
            close_index(t, i + 1, depth - 1)
        }
    } else {
        close_index(t, i + 1, depth)
    }
}

/// Tokens from `i` with each parenthesised group packed into one container;
/// `None` when the parentheses do not pair up.
pub open spec fn group_parens(t: Seq<TokenSpec>, i: int) -> Option<Seq<TokenSpec>>
    decreases t.len() - i,
{
    if i < 0 || i >= t.len() {
        Some(Seq::<TokenSpec>::empty())
    } else if t[i] is LeftParenthesis {
        let j = close_index(t, i + 1, 1);
        if j <= i || j >= t.len() {
            None
        } else {
            match group_parens(t, j + 1) {
                Some(rest) => Some(
                    seq![TokenSpec::ParenthesisContainer(t.subrange(i + 1, j))] + rest,
                ),
                None => None,
            }
        }
    } else if t[i] is RightParenthesis {
        None
    } else {
        match group_parens(t, i + 1) {
            Some(rest) => Some(seq![t[i]] + rest),
            None => None,
        }
    }
}

/// Scanning from `i`, some `(` is never closed.
pub open spec fn parens_unclosed(t: Seq<TokenSpec>, i: int) -> bool
    decreases t.len() - i,
{
    if i < 0 || i >= t.len() {
        false
    } else if t[i] is LeftParenthesis {
        let j = close_index(t, i + 1, 1);
        if j <= i || j >= t.len() {
            true
        } else {
            parens_unclosed(t, j + 1)
        }
    } else {
        parens_unclosed(t, i + 1)
    }
}

/// The error of unpaired parentheses: an unclosed `(` is reported before a stray `)`.
pub open spec fn paren_message(t: Seq<TokenSpec>) -> Seq<char> {
    if parens_unclosed(t, 0) {
        "')' was expected but not found."@
    } else {
        "'(' was expected but not found."@
    }
}

/// `and` or `or`.
pub open spec fn is_logical_spec(t: TokenSpec) -> bool {
    t is And || t is Or
}

/// After the first `k` tokens: the output so far, and the pending run of operands.
pub open spec fn operand_state(t: Seq<TokenSpec>, k: int) -> (Seq<TokenSpec>, Seq<TokenSpec>)
    decreases k,
{
    if k <= 0 || k > t.len() {
        (Seq::<TokenSpec>::empty(), Seq::<TokenSpec>::empty())
    } else {
        let (r, g) = operand_state(t, k - 1);
        let x = t[k - 1];
        if is_logical_spec(x) {
            if g.len() == 0 {
                (r.push(x), g)
            } else {
                (r.push(TokenSpec::OperandContainer(g)).push(x), Seq::<TokenSpec>::empty())
            }
        } else {
            (r, g.push(x))
        }
    }
}

/// The tokens with each run between `and`/`or` packed into an operand container.
pub open spec fn operand_groups(t: Seq<TokenSpec>) -> Seq<TokenSpec> {
    let (r, g) = operand_state(t, t.len() as int);
    if g.len() > 0 {
        r.push(TokenSpec::OperandContainer(g))
    } else {
        r
    }
}

/// Operands and operators strictly alternate, starting and ending with an operand.
pub open spec fn alternates(u: Seq<TokenSpec>) -> bool {
    u.len() % 2 == 1 && forall|i: int| 0 <= i < u.len() ==> ((i % 2 == 1) == is_logical_spec(#[trigger] u[i]))
}

/// The operands after the first `k` operators of `u`, with `and` applied at once.
pub open spec fn and_fold(u: Seq<TokenSpec>, k: int) -> Seq<TokenSpec>
    decreases k,
{
    if k <= 0 {
        seq![u[0]]
    } else {
        let acc = and_fold(u, k - 1);
        if u[2 * k - 1] is Or {
            acc.push(u[2 * k])
        } else {
            acc.drop_last().push(TokenSpec::AndContainer(seq![acc.last(), u[2 * k]]))
        }
    }
}

/// `and` binds tighter than `or`: the tokens as one or-container of and-containers.
pub open spec fn and_or_spec(t: Seq<TokenSpec>) -> Option<TokenSpec> {
    let u = operand_groups(t);
    if t.len() == 0 || !alternates(u) {
        None
    } else {
        Some(TokenSpec::OrContainer(and_fold(u, (u.len() - 1) / 2)))
    }
}


/// The error of a token list whose `and`/`or` do not combine: an operator
/// first or last, or operators and operands out of turn.
pub open spec fn and_or_message(t: Seq<TokenSpec>) -> Seq<char> {
    let u = operand_groups(t);
    if t.len() == 0 || u.len() == 0 {
        "Unknown error."@
    } else if is_logical_spec(u[0]) || is_logical_spec(u.last()) {
        "An illegal logical operator(and, or) was found."@
    } else {
        "The use of a logical operator(and, or) was wrong."@
    }
}

/// The error of an operand run that does not resolve.
pub open spec fn resolve_message(s: Seq<TokenSpec>) -> Seq<char> {
    if s.len() >= 3 {
        "Unknown error. Maybe it is because there are multiple names of selection nodes."@
    } else if s.len() == 0 {
        "Unknown error."@
    } else if s.len() == 1 {
        "An illegal not was found."@
    } else if s[0] is Not && s[1] is Not {
        "Not is continuous."@
    } else {
        "Unknown error. Maybe it is because there are multiple names of selection nodes."@
    }
}

/// The error of the first operand run in the tree that does not resolve.
pub open spec fn operand_message(t: TokenSpec) -> Seq<char>
    decreases t,
{
    match t {
        TokenSpec::OperandContainer(s) => resolve_message(s),
        TokenSpec::AndContainer(c) => all_operand_message(c),
        TokenSpec::OrContainer(c) => all_operand_message(c),
        TokenSpec::NotContainer(c) => all_operand_message(c),
        _ => Seq::<char>::empty(),
    }
}

/// `operand_message` of the first token of the list that does not resolve.
pub open spec fn all_operand_message(s: Seq<TokenSpec>) -> Seq<char>
    decreases s,
{
    if s.len() == 0 {
        Seq::<char>::empty()
    } else if all_resolved(s.drop_last()) is None {
        all_operand_message(s.drop_last())
    } else {
        operand_message(s.last())
    }
}

/// An operand run resolved: a single name, or `not` before a single name.
pub open spec fn resolve_operand(s: Seq<TokenSpec>) -> Option<TokenSpec> {
    if s.len() == 1 {
        if s[0] is Not {
            None
        } else {
            Some(s[0])
        }
    } else if s.len() == 2 {
        if s[0] is Not && !(s[1] is Not) {
            Some(TokenSpec::NotContainer(seq![s[1]]))
        } else {
            None
        }
    } else {
        None
    }
}

/// Every operand container in the tree resolved (parenthesised groups untouched).
pub open spec fn operands_resolved(t: TokenSpec) -> Option<TokenSpec>
    decreases t,
{
    match t {
        TokenSpec::OperandContainer(s) => resolve_operand(s),
        TokenSpec::AndContainer(c) => if c.len() == 0 {
            Some(t)
        } else {
            match all_resolved(c) {
                Some(d) => Some(TokenSpec::AndContainer(d)),
                None => None,
            }
        },
        TokenSpec::OrContainer(c) => if c.len() == 0 {
            Some(t)
        } else {
            match all_resolved(c) {
                Some(d) => Some(TokenSpec::OrContainer(d)),
                None => None,
            }
        },
        TokenSpec::NotContainer(c) => if c.len() == 0 {
            Some(t)
        } else {
            match all_resolved(c) {
                Some(d) => Some(TokenSpec::NotContainer(d)),
                None => None,
            }
        },
        _ => Some(t),
    }
}

/// `operands_resolved` on every token of a list.
pub open spec fn all_resolved(s: Seq<TokenSpec>) -> Option<Seq<TokenSpec>>
    decreases s,
{
    if s.len() == 0 {
        Some(Seq::<TokenSpec>::empty())
    } else {
        match all_resolved(s.drop_last()) {
            Some(a) => match operands_resolved(s.last()) {
                Some(b) => Some(a.push(b)),
                None => None,
            },
            None => None,
        }
    }
}

/// Every parenthesised group in the tree parsed in turn; `n` bounds the
/// length of the groups, which all come from a token list of that length.
pub open spec fn groups_parsed(t: TokenSpec, n: int) -> Option<TokenSpec>
    decreases 2 * n, t,
{
    match t {
        TokenSpec::ParenthesisContainer(sub) => if sub.len() < n {
            parse_spec(sub)
        } else {
            None
        },
        TokenSpec::AndContainer(c) => if c.len() == 0 {
            Some(t)
        } else {
            match all_groups_parsed(c, n) {
                Some(d) => Some(TokenSpec::AndContainer(d)),
                None => None,
            }
        },
        TokenSpec::OrContainer(c) => if c.len() == 0 {
            Some(t)
        } else {
            match all_groups_parsed(c, n) {
                Some(d) => Some(TokenSpec::OrContainer(d)),
                None => None,
            }
        },
        TokenSpec::NotContainer(c) => if c.len() == 0 {
            Some(t)
        } else {
            match all_groups_parsed(c, n) {
                Some(d) => Some(TokenSpec::NotContainer(d)),
                None => None,
            }
        },
        TokenSpec::OperandContainer(c) => if c.len() == 0 {
            Some(t)
        } else {
            match all_groups_parsed(c, n) {
                Some(d) => Some(TokenSpec::OperandContainer(d)),
                None => None,
            }
        },
        _ => Some(t),
    }
}

/// `groups_parsed` on every token of a list.
pub open spec fn all_groups_parsed(s: Seq<TokenSpec>, n: int) -> Option<Seq<TokenSpec>>
    decreases 2 * n, s,
{
    if s.len() == 0 {
        Some(Seq::<TokenSpec>::empty())
    } else {
        match all_groups_parsed(s.drop_last(), n) {
            Some(a) => match groups_parsed(s.last(), n) {
                Some(b) => Some(a.push(b)),
                None => None,
            },
            None => None,
        }
    }
}

/// The parse of a token list: parentheses grouped, `and`/`or` combined,
/// `not` applied, then each group parsed the same way.
pub open spec fn parse_spec(t: Seq<TokenSpec>) -> Option<TokenSpec>
    decreases 2 * t.len() + 1, t,
{
    match group_parens(t, 0) {
        Some(g) => match and_or_spec(g) {
            Some(x) => match operands_resolved(x) {
                Some(y) => groups_parsed(y, t.len() as int),
                None => None,
            },
            None => None,
        },
        None => None,
    }
}

/// The error of the first group in the tree that does not parse.
pub open spec fn groups_message(t: TokenSpec, n: int) -> Seq<char>
    decreases 2 * n, t,
{
    match t {
        TokenSpec::ParenthesisContainer(sub) => if sub.len() < n {
            parse_message(sub)
        } else {
            "Unknown error."@
        },
        TokenSpec::AndContainer(c) => all_groups_message(c, n),
        TokenSpec::OrContainer(c) => all_groups_message(c, n),
        TokenSpec::NotContainer(c) => all_groups_message(c, n),
        TokenSpec::OperandContainer(c) => all_groups_message(c, n),
        _ => Seq::<char>::empty(),
    }
}

/// `groups_message` of the first token of the list that does not parse.
pub open spec fn all_groups_message(s: Seq<TokenSpec>, n: int) -> Seq<char>
    decreases 2 * n, s,
{
    if s.len() == 0 {
        Seq::<char>::empty()
    } else if all_groups_parsed(s.drop_last(), n) is None {
        all_groups_message(s.drop_last(), n)
    } else {
        groups_message(s.last(), n)
    }
}

/// The error of a token list that does not parse: that of the first step that fails.
pub open spec fn parse_message(t: Seq<TokenSpec>) -> Seq<char>
    decreases 2 * t.len() + 1, t,
{
    match group_parens(t, 0) {
        Some(g) => match and_or_spec(g) {
            Some(x) => match operands_resolved(x) {
                Some(y) => groups_message(y, t.len() as int),
                None => operand_message(x),
            },
            None => and_or_message(g),
        },
        None => paren_message(t),
    }
}

/// The selection registered under `n`, the first one where names repeat.
pub open spec fn lookup_from(table: Seq<(Seq<char>, SelectionNode)>, n: Seq<char>, i: int) -> Option<
    SelectionNode,
>
    decreases table.len() - i,
{
    if i < 0 || i >= table.len() {
        None
    } else if table[i].0 == n {
        Some(table[i].1)
    } else {
        lookup_from(table, n, i + 1)
    }
}

/// The mathematical content of a table of named selections.
pub open spec fn table_view(table: Seq<(String, Arc<SelectionNode>)>) -> Seq<(Seq<char>, SelectionNode)> {
    table.map_values(|p: (String, Arc<SelectionNode>)| (p.0@, *p.1))
}

/// The names of a table of selections, in order.
pub open spec fn table_names(table: Seq<(String, Arc<SelectionNode>)>) -> Seq<Seq<char>> {
    table.map_values(|p: (String, Arc<SelectionNode>)| p.0@)
}

/// The parsed condition can become a selection tree: every name is defined
/// and every container is an and, an or, or a single negation.
pub open spec fn node_ok(t: TokenSpec, table: Seq<(Seq<char>, SelectionNode)>) -> bool
    decreases t,
{
    match t {
        TokenSpec::SelectionReference(n) => lookup_from(table, n, 0) is Some,
        TokenSpec::AndContainer(c) => forall|i: int| 0 <= i < c.len() ==> node_ok(#[trigger] c[i], table),
        TokenSpec::OrContainer(c) => forall|i: int| 0 <= i < c.len() ==> node_ok(#[trigger] c[i], table),
        TokenSpec::NotContainer(c) => c.len() == 1 && node_ok(c[0], table),
        _ => false,
    }
}

/// The error of a parsed condition that cannot become a selection tree:
/// that of its first failing part.
pub open spec fn node_message(t: TokenSpec, table: Seq<(Seq<char>, SelectionNode)>) -> Seq<char>
    decreases t,
{
    match t {
        TokenSpec::SelectionReference(n) => n + " is not defined."@,
        TokenSpec::AndContainer(c) => all_node_message(c, table),
        TokenSpec::OrContainer(c) => all_node_message(c, table),
        TokenSpec::NotContainer(c) => if c.len() == 1 {
            node_message(c[0], table)
        } else {
            "Unknown error"@
        },
        _ => "Unknown error"@,
    }
}

/// `node_message` of the first token of the list that cannot become a tree.
pub open spec fn all_node_message(s: Seq<TokenSpec>, table: Seq<(Seq<char>, SelectionNode)>) -> Seq<
    char,
>
    decreases s,
{
    if s.len() == 0 {
        Seq::<char>::empty()
    } else if exists|i: int| 0 <= i < s.len() - 1 && !node_ok(#[trigger] s[i], table) {
        all_node_message(s.drop_last(), table)
    } else {
        node_message(s.last(), table)
    }
}

/// The verdict of a parsed condition on a record.
pub open spec fn cond_eval(t: TokenSpec, table: Seq<(Seq<char>, SelectionNode)>, e: LogRecord) -> bool
    decreases t,
{
    match t {
        TokenSpec::SelectionReference(n) => match lookup_from(table, n, 0) {
            Some(x) => x.eval(e),
            None => false,
        },
        TokenSpec::AndContainer(c) => forall|i: int|
            0 <= i < c.len() ==> cond_eval(#[trigger] c[i], table, e),
        TokenSpec::OrContainer(c) => exists|i: int|
            0 <= i < c.len() && cond_eval(#[trigger] c[i], table, e),
        TokenSpec::NotContainer(c) => c.len() > 0 && !cond_eval(c[0], table, e),
        _ => false,
    }
}


/// The text `all of `.
pub open spec fn all_of_word() -> Seq<char> {
    seq!['a', 'l', 'l', ' ', 'o', 'f', ' ']
}

/// The text `1 of `.
pub open spec fn one_of_word() -> Seq<char> {
    seq!['1', ' ', 'o', 'f', ' ']
}

/// The length of the `all of ` or `1 of ` that starts at `p`, or 0.
pub open spec fn of_word_len(s: Seq<char>, p: int) -> int {
    if starts_with(s.subrange(p, s.len() as int), all_of_word()) {
        7
    } else if starts_with(s.subrange(p, s.len() as int), one_of_word()) {
        5
    } else {
        0
    }
}

/// The index of the first `*` at or after `q`, or the length when there is none.
pub open spec fn star_from(s: Seq<char>, q: int) -> int
    decreases s.len() - q,
{
    if q < 0 || q >= s.len() {
        s.len() as int
    } else if s[q] == '*' {
        q
    } else {
        star_from(s, q + 1)
    }
}

/// The names that begin with `prefix`, in table order.
pub open spec fn names_with_prefix(names: Seq<Seq<char>>, prefix: Seq<char>) -> Seq<Seq<char>>
    decreases names.len(),
{
    if names.len() == 0 {
        names
    } else {
        names_with_prefix(names.drop_last(), prefix) + if starts_with(names.last(), prefix) {
            seq![names.last()]
        } else {
            Seq::<Seq<char>>::empty()
        }
    }
}

/// The parts joined with `sep` between neighbours.
pub open spec fn join(parts: Seq<Seq<char>>, sep: Seq<char>) -> Seq<char>
    decreases parts.len(),
{
    if parts.len() == 0 {
        Seq::<char>::empty()
    } else if parts.len() == 1 {
        parts[0]
    } else {
        join(parts.drop_last(), sep) + sep + parts.last()
    }
}

/// ` and `, or ` or `.
pub open spec fn junction(all: bool) -> Seq<char> {
    if all {
        seq![' ', 'a', 'n', 'd', ' ']
    } else {
        seq![' ', 'o', 'r', ' ']
    }
}

/// `s` from `p` on, with each `all of X*` and `1 of X*` replaced by the
/// parenthesised conjunction or disjunction of the names beginning with `X`.
pub open spec fn expand_from(s: Seq<char>, p: int, names: Seq<Seq<char>>) -> Seq<char>
    decreases s.len() - p,
{
    if p < 0 || p >= s.len() {
        Seq::<char>::empty()
    } else {
        let k = of_word_len(s, p);
        let q = star_from(s, p + k);
        if k > 0 && q > p + k && q < s.len() {
            seq!['('] + join(names_with_prefix(names, s.subrange(p + k, q)), junction(k == 7))
                + seq![')'] + expand_from(s, q + 1, names)
        } else {
            seq![s[p]] + expand_from(s, p + 1, names)
        }
    }
}

/// A condition with its `all of` / `1 of` forms expanded.
pub open spec fn expand_of(s: Seq<char>, names: Seq<Seq<char>>) -> Seq<char> {
    expand_from(s, 0, names)
}

proof fn lemma_push_concat(a: Seq<TokenSpec>, x: TokenSpec, r: Option<Seq<TokenSpec>>)
    ensures
        match r {
            Some(rest) => Some(a + (seq![x] + rest)),
            None => None::<Seq<TokenSpec>>,
        } == match r {
            Some(rest) => Some(a.push(x) + rest),
            None => None,
        },
{
    match r {
        Some(rest) => {
            assert(a + (seq![x] + rest) =~= a.push(x) + rest);
        },
        None => {},
    }
}

fn is_word_char_exec(c: char) -> (r: bool)
    ensures
        r == is_word_char(c),
{
    ('a' <= c && c <= 'z') || ('A' <= c && c <= 'Z') || ('0' <= c && c <= '9') || c == '_'
}

/// The tokens inside a container; none for a plain token.
pub open spec fn children_spec(t: TokenSpec) -> Seq<TokenSpec> {
    match t {
        TokenSpec::ParenthesisContainer(c) => c,
        TokenSpec::AndContainer(c) => c,
        TokenSpec::OrContainer(c) => c,
        TokenSpec::NotContainer(c) => c,
        TokenSpec::OperandContainer(c) => c,
        _ => Seq::<TokenSpec>::empty(),
    }
}

/// `t` with its contents replaced by `c` when it is a container; `t` itself otherwise.
pub open spec fn with_children(t: TokenSpec, c: Seq<TokenSpec>) -> TokenSpec {
    match t {
        TokenSpec::ParenthesisContainer(_) => TokenSpec::ParenthesisContainer(c),
        TokenSpec::AndContainer(_) => TokenSpec::AndContainer(c),
        TokenSpec::OrContainer(_) => TokenSpec::OrContainer(c),
        TokenSpec::NotContainer(_) => TokenSpec::NotContainer(c),
        TokenSpec::OperandContainer(_) => TokenSpec::OperandContainer(c),
        _ => t,
    }
}

fn copy_all(v: &Vec<ConditionToken>) -> (r: Vec<ConditionToken>)
    ensures
        token_views(r@) == token_views(v@),
    decreases v@,
{
    let mut out: Vec<ConditionToken> = Vec::new();
    let mut i: usize = 0;
    while i < v.len()
        invariant
            i <= v@.len(),
            out@.len() == i,
            forall|j: int| 0 <= j < i ==> (#[trigger] out@[j]).spec_view() == v@[j].spec_view(),
        decreases v@.len() - i,
    {
        out.push(v[i].copy());
        i = i + 1;
    }
    proof {
        lemma_token_views(out@);
        lemma_token_views(v@);
    }
    assert(token_views(out@) =~= token_views(v@));
    out
}

impl ConditionToken {
    /// A deep copy.
    pub fn copy(&self) -> (r: ConditionToken)
        ensures
            r.spec_view() == self.spec_view(),
        decreases self,
    {
        match self {
            ConditionToken::LeftParenthesis => ConditionToken::LeftParenthesis,
            ConditionToken::RightParenthesis => ConditionToken::RightParenthesis,
            ConditionToken::Space => ConditionToken::Space,
            ConditionToken::Not => ConditionToken::Not,
            ConditionToken::And => ConditionToken::And,
            ConditionToken::Or => ConditionToken::Or,
            ConditionToken::SelectionReference(name) => ConditionToken::SelectionReference(
                name.clone(),
            ),
            ConditionToken::ParenthesisContainer(v) => ConditionToken::ParenthesisContainer(
                copy_all(v),
            ),
            ConditionToken::AndContainer(v) => ConditionToken::AndContainer(copy_all(v)),
            ConditionToken::OrContainer(v) => ConditionToken::OrContainer(copy_all(v)),
            ConditionToken::NotContainer(v) => ConditionToken::NotContainer(copy_all(v)),
            ConditionToken::OperandContainer(v) => ConditionToken::OperandContainer(copy_all(v)),
        }
    }

    /// The same kind of token, holding `sub_tokens` if it is a container.
    pub fn replace_subtoken(&self, sub_tokens: Vec<ConditionToken>) -> (r: ConditionToken)
        ensures
            r.spec_view() == with_children(self.spec_view(), token_views(sub_tokens@)),
    {
        match self {
            ConditionToken::ParenthesisContainer(_) => ConditionToken::ParenthesisContainer(
                sub_tokens,
            ),
            ConditionToken::AndContainer(_) => ConditionToken::AndContainer(sub_tokens),
            ConditionToken::OrContainer(_) => ConditionToken::OrContainer(sub_tokens),
            ConditionToken::NotContainer(_) => ConditionToken::NotContainer(sub_tokens),
            ConditionToken::OperandContainer(_) => ConditionToken::OperandContainer(sub_tokens),
            _ => self.copy(),
        }
    }

    /// Copies of the tokens inside a container; empty for a plain token.
    pub fn sub_tokens(&self) -> (r: Vec<ConditionToken>)
        ensures
            token_views(r@) == children_spec(self.spec_view()),
    {
        match self {
            ConditionToken::ParenthesisContainer(v) => copy_all(v),
            ConditionToken::AndContainer(v) => copy_all(v),
            ConditionToken::OrContainer(v) => copy_all(v),
            ConditionToken::NotContainer(v) => copy_all(v),
            ConditionToken::OperandContainer(v) => copy_all(v),
            _ => Vec::new(),
        }
    }

    /// As `sub_tokens`, but empty for a parenthesised group.
    pub fn sub_tokens_without_parenthesis(&self) -> (r: Vec<ConditionToken>)
        ensures
            token_views(r@) == (if self.spec_view() is ParenthesisContainer {
                Seq::<TokenSpec>::empty()
            } else {
                children_spec(self.spec_view())
            }),
    {
        match self {
            ConditionToken::ParenthesisContainer(_) => Vec::new(),
            _ => self.sub_tokens(),
        }
    }
}

/// Once a prefix of a list fails to resolve, the whole list fails.
proof fn lemma_all_resolved_prefix(s: Seq<TokenSpec>, k: int)
    requires
        0 <= k <= s.len(),
        all_resolved(s.subrange(0, k)) is None,
    ensures
        all_resolved(s) is None,
    decreases s.len() - k,
{
    if k < s.len() {
        assert(s.subrange(0, k + 1).drop_last() =~= s.subrange(0, k));
        lemma_all_resolved_prefix(s, k + 1);
    } else {
        assert(s.subrange(0, k) =~= s);
    }
}

/// When the tokens before `k` resolve and token `k` does not, the list fails
/// with token `k`'s error.
proof fn lemma_first_unresolved(s: Seq<TokenSpec>, k: int, m: int)
    requires
        0 <= k < m <= s.len(),
        all_resolved(s.subrange(0, k)) is Some,
        operands_resolved(s[k]) is None,
    ensures
        all_resolved(s.subrange(0, m)) is None,
        all_operand_message(s.subrange(0, m)) == operand_message(s[k]),
    decreases m - k,
{
    assert(s.subrange(0, m).drop_last() =~= s.subrange(0, m - 1));
    if m > k + 1 {
        lemma_first_unresolved(s, k, m - 1);
    } else {
        assert(s.subrange(0, m).last() == s[k]);
    }
}

/// Once a prefix of a list fails to parse, the whole list fails.
proof fn lemma_first_unparsed(s: Seq<TokenSpec>, n: int, k: int, m: int)
    requires
        0 <= k < m <= s.len(),
        all_groups_parsed(s.subrange(0, k), n) is Some,
        groups_parsed(s[k], n) is None,
    ensures
        all_groups_parsed(s.subrange(0, m), n) is None,
        all_groups_message(s.subrange(0, m), n) == groups_message(s[k], n),
    decreases m - k,
{
    assert(s.subrange(0, m).drop_last() =~= s.subrange(0, m - 1));
    if m > k + 1 {
        lemma_first_unparsed(s, n, k, m - 1);
    } else {
        assert(s.subrange(0, m).last() == s[k]);
    }
}

/// When the tokens before `k` become trees and token `k` does not, the list
/// fails with token `k`'s error.
proof fn lemma_first_bad_node(
    s: Seq<TokenSpec>,
    table: Seq<(Seq<char>, SelectionNode)>,
    k: int,
    m: int,
)
    requires
        0 <= k < m <= s.len(),
        forall|j: int| 0 <= j < k ==> node_ok(#[trigger] s[j], table),
        !node_ok(s[k], table),
    ensures
        all_node_message(s.subrange(0, m), table) == node_message(s[k], table),
    decreases m - k,
{
    let t = s.subrange(0, m);
    assert(t.drop_last() =~= s.subrange(0, m - 1));
    if m > k + 1 {
        assert(t[k] == s[k]);
        lemma_first_bad_node(s, table, k, m - 1);
    } else {
        assert forall|i: int| 0 <= i < t.len() - 1 implies node_ok(#[trigger] t[i], table) by {
            assert(t[i] == s[i]);
        }
        assert(t.last() == s[k]);
    }
}

/// Relies on `Arc::clone`: another handle to the same selection.
#[verifier::external_body]
fn share(a: &Arc<SelectionNode>) -> (r: Arc<SelectionNode>)
    ensures
        r == *a,
{
    Arc::clone(a)
}

/// The tree a condition parses to, if it parses.
pub open spec fn condition_tree(cond: Seq<char>) -> Option<TokenSpec> {
    match lex(cond) {
        Some(t) => parse_spec(t),
        None => None,
    }
}

/// The error of a condition that does not compile over the table: the
/// tokenizer's, else the parser's, else that of building the tree.
pub open spec fn condition_message(cond: Seq<char>, table: Seq<(Seq<char>, SelectionNode)>) -> Seq<
    char,
> {
    match lex(cond) {
        Some(t) => match parse_spec(t) {
            Some(x) => node_message(x, table),
            None => parse_message(t),
        },
        None => "An unusable character was found."@,
    }
}

/// A condition made ready for parsing: `all of` / `1 of` expanded over the
/// table's names, and everything from the first `|` on dropped.
pub open spec fn prepared_condition(cond: Seq<char>, names: Seq<Seq<char>>) -> Seq<char> {
    split_bar(expand_of(cond, names))[0]
}

/// Compiles condition expressions; holds no state.
pub struct ConditionCompiler {}

impl ConditionCompiler {
    pub fn new() -> (r: ConditionCompiler) {
        ConditionCompiler {}
    }

    /// A bare word as a token: `not`, `and`, `or`, or a selection name.
    fn to_enum(&self, token: String) -> (r: ConditionToken)
        ensures
            r.spec_view() == word_token(token@),
    {
        if crate::text::text_eq(token.as_str(), "not") {
            ConditionToken::Not
        } else if crate::text::text_eq(token.as_str(), "and") {
            ConditionToken::And
        } else if crate::text::text_eq(token.as_str(), "or") {
            ConditionToken::Or
        } else {
            ConditionToken::SelectionReference(token)
        }
    }

    /// `and` or `or`.
    fn is_logical(&self, token: &ConditionToken) -> (r: bool)
        ensures
            r == is_logical_spec(token.spec_view()),
    {
        match token {
            ConditionToken::And => true,
            ConditionToken::Or => true,
            _ => false,
        }
    }

    /// Packs each parenthesised group into a container, whose contents are
    /// left for later; fails when the parentheses do not pair up.
    fn parse_parenthesis(&self, tokens: Vec<ConditionToken>) -> (r: Result<
        Vec<ConditionToken>,
        String,
    >)
        ensures
            match r {
                Ok(v) => group_parens(token_views(tokens@), 0) == Some(token_views(v@)),
                Err(m) => group_parens(token_views(tokens@), 0) is None && m@ == paren_message(
                    token_views(tokens@),
                ),
            },
    {
        let ghost t = token_views(tokens@);
        let mut stray = false;
        let total: usize = tokens.len();
        let ghost n = total as int;
        proof {
            lemma_token_views(tokens@);
        }
        let mut rest = tokens;
        let mut i: usize = 0;
        let mut ret: Vec<ConditionToken> = Vec::new();
        while rest.len() > 0
            invariant
                n == total,
                t == token_views(tokens@),
                t.len() == n,
                i + rest@.len() == n,
                forall|k: int| 0 <= k < rest@.len() ==> (#[trigger] rest@[k]).spec_view() == t[i + k],
                !stray ==> group_parens(t, 0) == match group_parens(t, i as int) {
                    Some(g) => Some(token_views(ret@) + g),
                    None => None,
                },
                stray ==> group_parens(t, 0) is None,
                parens_unclosed(t, 0) == parens_unclosed(t, i as int),
            decreases rest@.len(),
        {
            let ghost before = token_views(ret@);
            let ghost old_rest = rest@;
            let token = rest.remove(0);
            assert(token.spec_view() == t[i as int]);
            assert forall|k: int| 0 <= k < rest@.len() implies (#[trigger] rest@[k]).spec_view() == t[i + 1 + k] by {
                assert(rest@[k] == old_rest[k + 1]);
            }
            match token {
                ConditionToken::LeftParenthesis => {
                    assert(t[i as int] is LeftParenthesis);
                    let mut depth: usize = 1;
                    let mut j: usize = i + 1;
                    let mut sub: Vec<ConditionToken> = Vec::new();
                    let mut closed = false;
                    while rest.len() > 0 && !closed
                        invariant
                            n == total,
                            t == token_views(tokens@),
                            !stray ==> group_parens(t, 0) == match group_parens(t, i as int) {
                                Some(g) => Some(token_views(ret@) + g),
                                None => None,
                            },
                            stray ==> group_parens(t, 0) is None,
                            parens_unclosed(t, 0) == parens_unclosed(t, i as int),
                            i < n,
                            t.len() == n,
                            j + rest@.len() == n,
                            i < j,
                            1 <= depth <= j,
                            forall|k: int| 0 <= k < rest@.len() ==> (#[trigger] rest@[k]).spec_view() == t[j + k],
                            !closed ==> close_index(t, i + 1, 1) == close_index(t, j as int, depth as int),
                            !closed ==> token_views(sub@) == t.subrange(i + 1, j as int),
                            closed ==> close_index(t, i + 1, 1) == j - 1,
                            closed ==> token_views(sub@) == t.subrange(i + 1, j - 1),
                            closed ==> j <= n,
                            closed ==> j >= i + 2,
                            t[i as int] is LeftParenthesis,
                        decreases rest@.len(),
                    {
                        let ghost old_rest2 = rest@;
                        let ghost old_sub = sub@;
                        let tk = rest.remove(0);
                        assert(tk.spec_view() == t[j as int]);
                        assert forall|k: int| 0 <= k < rest@.len() implies (#[trigger] rest@[k]).spec_view() == t[j + 1 + k] by {
                            assert(rest@[k] == old_rest2[k + 1]);
                        }
                        let is_left = match tk {
                            ConditionToken::LeftParenthesis => true,
                            _ => false,
                        };
                        let is_right = match tk {
                            ConditionToken::RightParenthesis => true,
                            _ => false,
                        };
                        if is_right && depth == 1 {
                            closed = true;
                        } else {
                            if is_left {
                                depth = depth + 1;
                            } else if is_right {
                                depth = depth - 1;
                            }
                            sub.push(tk);
                            proof {
                                lemma_views_push(old_sub, tk);
                                assert(t.subrange(i + 1, j + 1) =~= t.subrange(i + 1, j as int).push(t[j as int]));
                            }
                        }
                        j = j + 1;
                    }
                    if !closed {
                        proof {
                            assert(close_index(t, j as int, depth as int) == -1);
                        }
                        return Err(String::from_str("')' was expected but not found."));
                    }
                    let ghost jc = j - 1;
                    assert(group_parens(t, i as int) == match group_parens(t, jc + 1) {
                        Some(g) => Some(seq![TokenSpec::ParenthesisContainer(t.subrange(i + 1, jc))] + g),
                        None => None,
                    });
                    let c = ConditionToken::ParenthesisContainer(sub);
                    let ghost old_ret = ret@;
                    ret.push(c);
                    proof {
                        lemma_views_push(old_ret, c);
                        match group_parens(t, jc + 1) {
                            Some(g) => {
                                assert(before + (seq![c.spec_view()] + g) =~= token_views(ret@) + g);
                            },
                            None => {},
                        }
                    }
                    i = j;
                },
                ConditionToken::RightParenthesis => {
                    assert(t[i as int] is RightParenthesis);
                    stray = true;
                    i = i + 1;
                },
                _ => {
                    let ghost old_ret = ret@;
                    assert(!(token.spec_view() is LeftParenthesis) && !(token.spec_view() is RightParenthesis));
                    ret.push(token);
                    proof {
                        lemma_views_push(old_ret, token);
                        match group_parens(t, i + 1) {
                            Some(g) => {
                                assert(before + (seq![t[i as int]] + g) =~= token_views(ret@) + g);
                            },
                            None => {},
                        }
                    }
                    i = i + 1;
                },
            }
        }
        if stray {
            return Err(String::from_str("'(' was expected but not found."));
        }
        assert(group_parens(t, i as int) == Some(Seq::<TokenSpec>::empty()));
        assert(token_views(ret@) + Seq::<TokenSpec>::empty() =~= token_views(ret@));
        Ok(ret)
    }

    /// Packs each run of tokens between `and`/`or` into an operand container.
    fn to_operand_container(&self, tokens: Vec<ConditionToken>) -> (r: Vec<ConditionToken>)
        ensures
            token_views(r@) == operand_groups(token_views(tokens@)),
    {
        let ghost t = token_views(tokens@);
        let total: usize = tokens.len();
        proof {
            lemma_token_views(tokens@);
        }
        let mut rest = tokens;
        let mut k: usize = 0;
        let mut ret: Vec<ConditionToken> = Vec::new();
        let mut grouped_operands: Vec<ConditionToken> = Vec::new();
        while rest.len() > 0
            invariant
                t == token_views(tokens@),
                t.len() == total,
                k + rest@.len() == total,
                forall|j: int| 0 <= j < rest@.len() ==> (#[trigger] rest@[j]).spec_view() == t[k + j],
                operand_state(t, k as int) == (token_views(ret@), token_views(grouped_operands@)),
            decreases rest@.len(),
        {
            let ghost old_rest = rest@;
            let ghost old_ret = ret@;
            let ghost old_group = grouped_operands@;
            let token = rest.remove(0);
            assert(token.spec_view() == t[k as int]);
            assert forall|j: int| 0 <= j < rest@.len() implies (#[trigger] rest@[j]).spec_view() == t[k + 1 + j] by {
                assert(rest@[j] == old_rest[j + 1]);
            }
            if self.is_logical(&token) {
                if grouped_operands.len() == 0 {
                    ret.push(token);
                    proof {
                        lemma_views_push(old_ret, token);
                    }
                } else {
                    let g = grouped_operands;
                    grouped_operands = Vec::new();
                    let c = ConditionToken::OperandContainer(g);
                    ret.push(c);
                    let ghost mid = ret@;
                    ret.push(token);
                    proof {
                        lemma_views_push(old_ret, c);
                        lemma_views_push(mid, token);
                        assert(token_views(grouped_operands@) =~= Seq::<TokenSpec>::empty());
                    }
                }
            } else {
                grouped_operands.push(token);
                proof {
                    lemma_views_push(old_group, token);
                }
            }
            k = k + 1;
        }
        if grouped_operands.len() > 0 {
            let ghost old_ret = ret@;
            let c = ConditionToken::OperandContainer(grouped_operands);
            ret.push(c);
            proof {
                lemma_views_push(old_ret, c);
            }
        }
        ret
    }

    /// Combines operands joined by `and` first, then those joined by `or`.
    fn parse_and_or_operator(&self, tokens: Vec<ConditionToken>) -> (r: Result<ConditionToken, String>)
        ensures
            match r {
                Ok(t) => and_or_spec(token_views(tokens@)) == Some(t.spec_view()),
                Err(m) => and_or_spec(token_views(tokens@)) is None && m@ == and_or_message(
                    token_views(tokens@),
                ),
            },
    {
        if tokens.len() == 0 {
            return Err(String::from_str("Unknown error."));
        }
        let ghost t = token_views(tokens@);
        let mut u = self.to_operand_container(tokens);
        let ghost uv = token_views(u@);
        proof {
            lemma_token_views(u@);
        }
        let len = u.len();
        if len == 0 {
            return Err(String::from_str("Unknown error."));
        }
        if self.is_logical(&u[0]) || self.is_logical(&u[len - 1]) {
            assert(uv[0] == u@[0].spec_view());
            assert(uv[len - 1] == u@[len - 1].spec_view());
            assert(!alternates(uv));
            proof {
                lemma_token_views(tokens@);
            }
            return Err(String::from_str("An illegal logical operator(and, or) was found."));
        }
        let mut i: usize = 0;
        while i < len
            invariant
                len == u@.len(),
                uv == token_views(u@),
                uv.len() == len,
                i <= len,
                forall|j: int| 0 <= j < i ==> ((j % 2 == 1) == is_logical_spec(#[trigger] uv[j])),
                uv == operand_groups(token_views(tokens@)),
                token_views(tokens@).len() > 0,
                len > 0,
                !is_logical_spec(uv[0]),
                !is_logical_spec(uv[len - 1]),
            decreases len - i,
        {
            proof {
                lemma_token_views(u@);
            }
            if (i % 2 == 1) != self.is_logical(&u[i]) {
                assert(uv[i as int] == u@[i as int].spec_view());
                assert(!alternates(uv));
                return Err(String::from_str("The use of a logical operator(and, or) was wrong."));
            }
            i = i + 1;
        }
        proof {
            assert(!is_logical_spec(uv[len - 1]));
            assert(len % 2 == 1);
            assert(alternates(uv));
        }
        let m: usize = (len - 1) / 2;
        let first = u.remove(0);
        let mut operands: Vec<ConditionToken> = Vec::new();
        operands.push(first);
        proof {
            lemma_views_push(Seq::<ConditionToken>::empty(), first);
            assert(token_views(Seq::<ConditionToken>::empty()) =~= Seq::<TokenSpec>::empty());
            assert(token_views(operands@) =~= and_fold(uv, 0));
        }
        let mut k: usize = 0;
        while k < m
            invariant
                len == uv.len(),
                m == (len - 1) / 2,
                len % 2 == 1,
                alternates(uv),
                k <= m,
                u@.len() + 2 * k + 1 == len,
                forall|j: int| 0 <= j < u@.len() ==> (#[trigger] u@[j]).spec_view() == uv[2 * k + 1 + j],
                token_views(operands@) == and_fold(uv, k as int),
                operands@.len() > 0,
            decreases m - k,
        {
            let ghost u0 = u@;
            let op = u.remove(0);
            let ghost u1 = u@;
            let x = u.remove(0);
            assert(op.spec_view() == uv[2 * k + 1]);
            assert(x.spec_view() == uv[2 * k + 2]);
            assert forall|j: int| 0 <= j < u@.len() implies (#[trigger] u@[j]).spec_view() == uv[2 * (k + 1) + 1 + j] by {
                assert(u@[j] == u1[j + 1]);
                assert(u1[j + 1] == u0[j + 2]);
            }
            let ghost acc = operands@;
            let is_or = match op {
                ConditionToken::Or => true,
                _ => false,
            };
            if is_or {
                operands.push(x);
                proof {
                    lemma_views_push(acc, x);
                }
            } else {
                let last = operands.pop().unwrap();
                let ghost dropped = operands@;
                proof {
                    assert(acc.drop_last() =~= dropped);
                    assert(token_views(acc) == token_views(acc.drop_last()).push(acc.last().spec_view()));
                }
                let mut pair: Vec<ConditionToken> = Vec::new();
                pair.push(last);
                let ghost first_only = pair@;
                pair.push(x);
                proof {
                    lemma_views_push(Seq::<ConditionToken>::empty(), last);
                    assert(token_views(Seq::<ConditionToken>::empty()) =~= Seq::<TokenSpec>::empty());
                    lemma_views_push(first_only, x);
                    assert(token_views(pair@) =~= seq![last.spec_view(), x.spec_view()]);
                }
                let c = ConditionToken::AndContainer(pair);
                operands.push(c);
                proof {
                    lemma_views_push(dropped, c);
                    assert(uv[2 * (k + 1) - 1] is And);
                }
            }
            k = k + 1;
        }
        Ok(ConditionToken::OrContainer(operands))
    }

    /// Resolves the operand containers: a name stays a name, `not` and a name
    /// become a negation; anything else is an error.
    fn parse_operand_container(parent_token: ConditionToken) -> (r: Result<ConditionToken, String>)
        ensures
            match r {
                Ok(t) => operands_resolved(parent_token.spec_view()) == Some(t.spec_view()),
                Err(m) => operands_resolved(parent_token.spec_view()) is None && m@ == operand_message(
                    parent_token.spec_view(),
                ),
            },
        decreases parent_token,
    {
        match parent_token {
            ConditionToken::OperandContainer(sub_tokens) => {
                let mut sub = sub_tokens;
                proof {
                    lemma_token_views(sub@);
                }
                if sub.len() >= 3 {
                    return Err(
                        String::from_str(
                            "Unknown error. Maybe it is because there are multiple names of selection nodes.",
                        ),
                    );
                }
                if sub.len() == 0 {
                    return Err(String::from_str("Unknown error."));
                }
                let ghost sv = sub@;
                if sub.len() == 1 {
                    let only = sub.remove(0);
                    return match only {
                        ConditionToken::Not => Err(String::from_str("An illegal not was found.")),
                        _ => Ok(only),
                    };
                }
                let first = sub.remove(0);
                let second = sub.remove(0);
                assert(second == sv[1]);
                let first_not = match first {
                    ConditionToken::Not => true,
                    _ => false,
                };
                let second_not = match second {
                    ConditionToken::Not => true,
                    _ => false,
                };
                if first_not {
                    if second_not {
                        Err(String::from_str("Not is continuous."))
                    } else {
                        let mut one: Vec<ConditionToken> = Vec::new();
                        one.push(second);
                        proof {
                            lemma_views_push(Seq::<ConditionToken>::empty(), second);
                            assert(token_views(Seq::<ConditionToken>::empty()) =~= Seq::<TokenSpec>::empty());
                            assert(token_views(one@) =~= seq![second.spec_view()]);
                        }
                        Ok(ConditionToken::NotContainer(one))
                    }
                } else {
                    Err(
                        String::from_str(
                            "Unknown error. Maybe it is because there are multiple names of selection nodes.",
                        ),
                    )
                }
            },
            ConditionToken::AndContainer(c) => {
                if c.len() == 0 {
                    return Ok(ConditionToken::AndContainer(c));
                }
                let d = Self::resolve_all(c)?;
                Ok(ConditionToken::AndContainer(d))
            },
            ConditionToken::OrContainer(c) => {
                if c.len() == 0 {
                    return Ok(ConditionToken::OrContainer(c));
                }
                let d = Self::resolve_all(c)?;
                Ok(ConditionToken::OrContainer(d))
            },
            ConditionToken::NotContainer(c) => {
                if c.len() == 0 {
                    return Ok(ConditionToken::NotContainer(c));
                }
                let d = Self::resolve_all(c)?;
                Ok(ConditionToken::NotContainer(d))
            },
            other => Ok(other),
        }
    }

    fn resolve_all(c: Vec<ConditionToken>) -> (r: Result<Vec<ConditionToken>, String>)
        ensures
            match r {
                Ok(d) => all_resolved(token_views(c@)) == Some(token_views(d@)),
                Err(m) => all_resolved(token_views(c@)) is None && m@ == all_operand_message(
                    token_views(c@),
                ),
            },
        decreases c,
    {
        let ghost orig = c@;
        let ghost cv = token_views(c@);
        proof {
            lemma_token_views(c@);
        }
        let total = c.len();
        let mut rest = c;
        let mut out: Vec<ConditionToken> = Vec::new();
        let mut k: usize = 0;
        assert(cv.subrange(0, 0) =~= Seq::<TokenSpec>::empty());
        assert(token_views(Seq::<ConditionToken>::empty()) =~= Seq::<TokenSpec>::empty());
        while rest.len() > 0
            invariant
                orig == c@,
                cv == token_views(orig),
                cv.len() == total,
                orig.len() == total,
                k + rest@.len() == total,
                forall|j: int| 0 <= j < rest@.len() ==> #[trigger] rest@[j] == orig[k + j],
                all_resolved(cv.subrange(0, k as int)) == Some(token_views(out@)),
            decreases rest@.len(),
        {
            let ghost old_rest = rest@;
            let ghost old_out = out@;
            let x = rest.remove(0);
            assert(x == orig[k as int]);
            assert forall|j: int| 0 <= j < rest@.len() implies #[trigger] rest@[j] == orig[k + 1 + j] by {
                assert(rest@[j] == old_rest[j + 1]);
            }
            proof {
                lemma_token_views(orig);
                assert(cv.subrange(0, k + 1).drop_last() =~= cv.subrange(0, k as int));
                assert(cv.subrange(0, k + 1).last() == x.spec_view());
            }
            match Self::parse_operand_container(x) {
                Ok(y) => {
                    out.push(y);
                    proof {
                        lemma_views_push(old_out, y);
                    }
                },
                Err(e) => {
                    proof {
                        lemma_first_unresolved(cv, k as int, total as int);
                        assert(cv.subrange(0, total as int) =~= cv);
                    }
                    return Err(e);
                },
            }
            k = k + 1;
        }
        assert(cv.subrange(0, total as int) =~= cv);
        Ok(out)
    }

    /// Parses the contents of each parenthesised group in the tree.
    fn parse_rest_parenthesis(&self, token: ConditionToken, bound: usize) -> (r: Result<
        ConditionToken,
        String,
    >)
        ensures
            match r {
                Ok(t) => groups_parsed(token.spec_view(), bound as int) == Some(t.spec_view()),
                Err(m) => groups_parsed(token.spec_view(), bound as int) is None && m@
                    == groups_message(token.spec_view(), bound as int),
            },
        decreases 2 * bound, token,
    {
        match token {
            ConditionToken::ParenthesisContainer(sub) => {
                proof {
                    lemma_token_views(sub@);
                }
                if sub.len() < bound {
                    self.parse(sub)
                } else {
                    Err(String::from_str("Unknown error."))
                }
            },
            ConditionToken::AndContainer(c) => {
                if c.len() == 0 {
                    return Ok(ConditionToken::AndContainer(c));
                }
                let d = self.parse_rest_all(c, bound)?;
                Ok(ConditionToken::AndContainer(d))
            },
            ConditionToken::OrContainer(c) => {
                if c.len() == 0 {
                    return Ok(ConditionToken::OrContainer(c));
                }
                let d = self.parse_rest_all(c, bound)?;
                Ok(ConditionToken::OrContainer(d))
            },
            ConditionToken::NotContainer(c) => {
                if c.len() == 0 {
                    return Ok(ConditionToken::NotContainer(c));
                }
                let d = self.parse_rest_all(c, bound)?;
                Ok(ConditionToken::NotContainer(d))
            },
            ConditionToken::OperandContainer(c) => {
                if c.len() == 0 {
                    return Ok(ConditionToken::OperandContainer(c));
                }
                let d = self.parse_rest_all(c, bound)?;
                Ok(ConditionToken::OperandContainer(d))
            },
            other => Ok(other),
        }
    }

    fn parse_rest_all(&self, c: Vec<ConditionToken>, bound: usize) -> (r: Result<
        Vec<ConditionToken>,
        String,
    >)
        ensures
            match r {
                Ok(d) => all_groups_parsed(token_views(c@), bound as int) == Some(token_views(d@)),
                Err(m) => all_groups_parsed(token_views(c@), bound as int) is None && m@
                    == all_groups_message(token_views(c@), bound as int),
            },
        decreases 2 * bound, c,
    {
        let ghost orig = c@;
        let ghost cv = token_views(c@);
        proof {
            lemma_token_views(c@);
        }
        let total = c.len();
        let mut rest = c;
        let mut out: Vec<ConditionToken> = Vec::new();
        let mut k: usize = 0;
        assert(cv.subrange(0, 0) =~= Seq::<TokenSpec>::empty());
        assert(token_views(Seq::<ConditionToken>::empty()) =~= Seq::<TokenSpec>::empty());
        while rest.len() > 0
            invariant
                orig == c@,
                cv == token_views(orig),
                cv.len() == total,
                orig.len() == total,
                k + rest@.len() == total,
                forall|j: int| 0 <= j < rest@.len() ==> #[trigger] rest@[j] == orig[k + j],
                all_groups_parsed(cv.subrange(0, k as int), bound as int) == Some(token_views(out@)),
            decreases rest@.len(),
        {
            let ghost old_rest = rest@;
            let ghost old_out = out@;
            let x = rest.remove(0);
            assert(x == orig[k as int]);
            assert forall|j: int| 0 <= j < rest@.len() implies #[trigger] rest@[j] == orig[k + 1 + j] by {
                assert(rest@[j] == old_rest[j + 1]);
            }
            proof {
                lemma_token_views(orig);
                assert(cv.subrange(0, k + 1).drop_last() =~= cv.subrange(0, k as int));
                assert(cv.subrange(0, k + 1).last() == x.spec_view());
            }
            match self.parse_rest_parenthesis(x, bound) {
                Ok(y) => {
                    out.push(y);
                    proof {
                        lemma_views_push(old_out, y);
                    }
                },
                Err(e) => {
                    proof {
                        lemma_first_unparsed(cv, bound as int, k as int, total as int);
                        assert(cv.subrange(0, total as int) =~= cv);
                    }
                    return Err(e);
                },
            }
            k = k + 1;
        }
        assert(cv.subrange(0, total as int) =~= cv);
        Ok(out)
    }

    /// Parses a list of tokens into one tree of containers.
    fn parse(&self, tokens: Vec<ConditionToken>) -> (r: Result<ConditionToken, String>)
        ensures
            match r {
                Ok(t) => parse_spec(token_views(tokens@)) == Some(t.spec_view()),
                Err(m) => parse_spec(token_views(tokens@)) is None && m@ == parse_message(
                    token_views(tokens@),
                ),
            },
        decreases 2 * tokens@.len() + 1, tokens,
    {
        proof {
            lemma_token_views(tokens@);
        }
        let n = tokens.len();
        let grouped = self.parse_parenthesis(tokens)?;
        let combined = self.parse_and_or_operator(grouped)?;
        let resolved = Self::parse_operand_container(combined)?;
        self.parse_rest_parenthesis(resolved, n)
    }

    /// Turns a parsed condition into a selection tree whose references share
    /// the table's selections.
    fn to_selectnode(token: &ConditionToken, name_2_node: &Vec<(String, Arc<SelectionNode>)>) -> (r: Result<
        SelectionNode,
        String,
    >)
        ensures
            match r {
                Ok(node) => node_ok(token.spec_view(), table_view(name_2_node@)) && forall|e: LogRecord|
                    #[trigger] node.eval(e) == cond_eval(
                        token.spec_view(),
                        table_view(name_2_node@),
                        e,
                    ),
                Err(m) => !node_ok(token.spec_view(), table_view(name_2_node@)) && m@ == node_message(
                    token.spec_view(),
                    table_view(name_2_node@),
                ),
            },
        decreases token,
    {
        let ghost tv = table_view(name_2_node@);
        match token {
            ConditionToken::SelectionReference(selection_name) => {
                assert(token.spec_view() == TokenSpec::SelectionReference(selection_name@));
                let mut i: usize = 0;
                while i < name_2_node.len()
                    invariant
                        token.spec_view() == TokenSpec::SelectionReference(selection_name@),
                        tv == table_view(name_2_node@),
                        i <= name_2_node@.len(),
                        lookup_from(tv, selection_name@, 0) == lookup_from(
                            tv,
                            selection_name@,
                            i as int,
                        ),
                    decreases name_2_node@.len() - i,
                {
                    assert(tv[i as int] == (name_2_node@[i as int].0@, *name_2_node@[i as int].1));
                    if crate::text::text_eq(name_2_node[i].0.as_str(), selection_name.as_str()) {
                        let target = share(&name_2_node[i].1);
                        let ref_node = RefSelectionNode::new(target);
                        let node = SelectionNode::Ref(ref_node);
                        proof {
                            assert(lookup_from(tv, selection_name@, i as int) == Some(
                                *name_2_node@[i as int].1,
                            ));
                            assert(token.spec_view() == TokenSpec::SelectionReference(
                                selection_name@,
                            ));
                            assert forall|e: LogRecord| #[trigger] node.eval(e) == cond_eval(
                                token.spec_view(),
                                tv,
                                e,
                            ) by {}
                        }
                        return Ok(node);
                    }
                    i = i + 1;
                }
                let msg = selection_name.clone().concat(" is not defined.");
                Err(msg)
            },
            ConditionToken::AndContainer(sub_tokens) => {
                let mut children: Vec<SelectionNode> = Vec::new();
                proof {
                    lemma_token_views(sub_tokens@);
                    assert(token.spec_view() == TokenSpec::AndContainer(token_views(sub_tokens@)));
                }
                if let Err(msg) = Self::children_to_nodes(sub_tokens, name_2_node, &mut children) {
                    proof {
                        let j = choose|j: int| 0 <= j < sub_tokens@.len() && !node_ok(#[trigger] sub_tokens@[j].spec_view(), tv);
                        assert(token_views(sub_tokens@)[j] == sub_tokens@[j].spec_view());
                        assert(!node_ok(token_views(sub_tokens@)[j], tv));
                        let c = token_views(sub_tokens@);
                        let tt = TokenSpec::AndContainer(c);
                        assert(decreases_to!(tt => tt->AndContainer_0));
                        assert(decreases_to!(tt->AndContainer_0 => c[j]));
                        assert(decreases_to!(tt => c[j]));
                        assert(!(forall|i: int| 0 <= i < c.len() ==> node_ok(#[trigger] c[i], tv)));
                        assert(!node_ok(TokenSpec::AndContainer(c), tv));
                        assert(!node_ok(token.spec_view(), tv));
                    }
                    return Err(msg);
                }
                let ghost kids = children@;
                let select_and_node = AndSelectionNode { child_nodes: children };
                assert(select_and_node.child_nodes@ == kids);
                let node = select_and_node.into_node();
                proof {
                    lemma_token_views(sub_tokens@);
                    let c = token_views(sub_tokens@);
                    let tt = TokenSpec::AndContainer(c);
                    assert forall|i: int| #![trigger c[i]] 0 <= i < c.len() implies decreases_to!(tt => c[i]) by {
                        assert(decreases_to!(tt => tt->AndContainer_0));
                        assert(decreases_to!(tt->AndContainer_0 => c[i]));
                    }
                    assert forall|j: int| 0 <= j < c.len() implies node_ok(#[trigger] c[j], tv) by {
                        assert(node_ok(sub_tokens@[j].spec_view(), tv));
                    }
                    assert(node_ok(tt, tv));
                    assert forall|e: LogRecord| #[trigger] node.eval(e) == cond_eval(tt, tv, e) by {
                        assert forall|j: int| #![trigger c[j]] #![trigger kids[j]] 0 <= j < c.len() implies cond_eval(c[j], tv, e)
                            == kids[j].eval(e) by {
                            assert(kids[j].eval(e) == cond_eval(sub_tokens@[j].spec_view(), tv, e));
                        }
                        assert(tt->AndContainer_0 == c);
                    }
                }
                Ok(node)
            },
            ConditionToken::OrContainer(sub_tokens) => {
                let mut children: Vec<SelectionNode> = Vec::new();
                proof {
                    lemma_token_views(sub_tokens@);
                    assert(token.spec_view() == TokenSpec::OrContainer(token_views(sub_tokens@)));
                }
                if let Err(msg) = Self::children_to_nodes(sub_tokens, name_2_node, &mut children) {
                    proof {
                        let j = choose|j: int| 0 <= j < sub_tokens@.len() && !node_ok(#[trigger] sub_tokens@[j].spec_view(), tv);
                        assert(token_views(sub_tokens@)[j] == sub_tokens@[j].spec_view());
                        assert(!node_ok(token_views(sub_tokens@)[j], tv));
                        let c = token_views(sub_tokens@);
                        let tt = TokenSpec::OrContainer(c);
                        assert(decreases_to!(tt => tt->OrContainer_0));
                        assert(decreases_to!(tt->OrContainer_0 => c[j]));
                        assert(decreases_to!(tt => c[j]));
                        assert(!(forall|i: int| 0 <= i < c.len() ==> node_ok(#[trigger] c[i], tv)));
                        assert(!node_ok(TokenSpec::OrContainer(c), tv));
                        assert(!node_ok(token.spec_view(), tv));
                    }
                    return Err(msg);
                }
                let ghost kids = children@;
                let select_or_node = OrSelectionNode { child_nodes: children };
                assert(select_or_node.child_nodes@ == kids);
                let node = select_or_node.into_node();
                proof {
                    lemma_token_views(sub_tokens@);
                    let c = token_views(sub_tokens@);
                    let tt = TokenSpec::OrContainer(c);
                    assert forall|i: int| #![trigger c[i]] 0 <= i < c.len() implies decreases_to!(tt => c[i]) by {
                        assert(decreases_to!(tt => tt->OrContainer_0));
                        assert(decreases_to!(tt->OrContainer_0 => c[i]));
                    }
                    assert forall|j: int| 0 <= j < c.len() implies node_ok(#[trigger] c[j], tv) by {
                        assert(node_ok(sub_tokens@[j].spec_view(), tv));
                    }
                    assert(node_ok(tt, tv));
                    assert forall|e: LogRecord| #[trigger] node.eval(e) == cond_eval(tt, tv, e) by {
                        assert forall|j: int| #![trigger c[j]] #![trigger kids[j]] 0 <= j < c.len() implies cond_eval(c[j], tv, e)
                            == kids[j].eval(e) by {
                            assert(kids[j].eval(e) == cond_eval(sub_tokens@[j].spec_view(), tv, e));
                        }
                        assert(tt->OrContainer_0 == c);
                    }
                }
                Ok(node)
            },
            ConditionToken::NotContainer(sub_tokens) => {
                proof {
                    lemma_token_views(sub_tokens@);
                    assert(token.spec_view() == TokenSpec::NotContainer(token_views(sub_tokens@)));
                }
                if sub_tokens.len() != 1 {
                    return Err(String::from_str("Unknown error"));
                }
                let ghost c = token_views(sub_tokens@);
                proof {
                    let tt = TokenSpec::NotContainer(c);
                    assert(decreases_to!(tt => tt->NotContainer_0));
                    assert(decreases_to!(tt->NotContainer_0 => c[0]));
                    assert(c[0] == sub_tokens@[0].spec_view());
                }
                let sub_node = match Self::to_selectnode(&sub_tokens[0], name_2_node) {
                    Ok(n) => n,
                    Err(m) => {
                        return Err(m);
                    },
                };
                let node = SelectionNode::Not(NotSelectionNode::new(sub_node));
                proof {
                    let tt = TokenSpec::NotContainer(c);
                    assert(tt->NotContainer_0 == c);
                    assert forall|e: LogRecord| #[trigger] node.eval(e) == cond_eval(tt, tv, e) by {
                        assert(node->Not_0.node == sub_node);
                        assert(sub_node.eval(e) == cond_eval(c[0], tv, e));
                        assert(node.eval(e) == !sub_node.eval(e));
                    }
                }
                Ok(node)
            },
            _ => {
                proof {
                    match token {
                        ConditionToken::LeftParenthesis => {},
                        ConditionToken::RightParenthesis => {},
                        ConditionToken::Space => {},
                        ConditionToken::Not => {},
                        ConditionToken::And => {},
                        ConditionToken::Or => {},
                        ConditionToken::ParenthesisContainer(v) => {},
                        ConditionToken::OperandContainer(v) => {},
                        _ => {},
                    }
                }
                Err(String::from_str("Unknown error"))
            },
        }
    }

    /// Builds the node of each token in turn into `out`; false at the first failure.
    fn children_to_nodes(
        sub_tokens: &Vec<ConditionToken>,
        name_2_node: &Vec<(String, Arc<SelectionNode>)>,
        out: &mut Vec<SelectionNode>,
    ) -> (r: Result<(), String>)
        requires
            old(out)@.len() == 0,
        ensures
            r is Ok <==> forall|j: int| 0 <= j < sub_tokens@.len() ==> node_ok(
                #[trigger] sub_tokens@[j].spec_view(),
                table_view(name_2_node@),
            ),
            r matches Err(m) ==> m@ == all_node_message(
                token_views(sub_tokens@),
                table_view(name_2_node@),
            ),
            r is Ok ==> final(out)@.len() == sub_tokens@.len(),
            r is Ok ==> forall|j: int, e: LogRecord|
                0 <= j < sub_tokens@.len() ==> #[trigger] final(out)@[j].eval(e) == cond_eval(
                    sub_tokens@[j].spec_view(),
                    table_view(name_2_node@),
                    e,
                ),
        decreases sub_tokens,
    {
        let ghost tv = table_view(name_2_node@);
        let mut k: usize = 0;
        while k < sub_tokens.len()
            invariant
                tv == table_view(name_2_node@),
                k <= sub_tokens@.len(),
                out@.len() == k,
                forall|j: int| 0 <= j < k ==> node_ok(#[trigger] sub_tokens@[j].spec_view(), tv),
                forall|j: int, e: LogRecord|
                    0 <= j < k ==> #[trigger] out@[j].eval(e) == cond_eval(
                        sub_tokens@[j].spec_view(),
                        tv,
                        e,
                    ),
            decreases sub_tokens@.len() - k,
        {
            match Self::to_selectnode(&sub_tokens[k], name_2_node) {
                Ok(sub_node) => {
                    out.push(sub_node);
                },
                Err(msg) => {
                    proof {
                        lemma_token_views(sub_tokens@);
                        let cv = token_views(sub_tokens@);
                        assert forall|j: int| 0 <= j < k implies node_ok(#[trigger] cv[j], tv) by {
                            assert(cv[j] == sub_tokens@[j].spec_view());
                        }
                        lemma_first_bad_node(cv, tv, k as int, cv.len() as int);
                        assert(cv.subrange(0, cv.len() as int) =~= cv);
                    }
                    return Err(msg);
                },
            }
            k = k + 1;
        }
        Ok(())
    }

    fn compile_condition_body(
        &self,
        condition_str: &str,
        name_2_node: &Vec<(String, Arc<SelectionNode>)>,
    ) -> (r: Result<SelectionNode, String>)
        ensures
            r is Ok <==> (condition_tree(condition_str@) matches Some(t) && node_ok(
                t,
                table_view(name_2_node@),
            )),
            r matches Ok(node) ==> forall|e: LogRecord|
                #[trigger] node.eval(e) == cond_eval(
                    condition_tree(condition_str@)->0,
                    table_view(name_2_node@),
                    e,
                ),
            r matches Err(m) ==> m@ == condition_message(condition_str@, table_view(name_2_node@)),
    {
        let tokens = self.tokenize(condition_str)?;
        let parsed = self.parse(tokens)?;
        Self::to_selectnode(&parsed, name_2_node)
    }

    /// Compiles a condition over the named selections of `name_2_node`.
    pub fn compile_condition(
        &self,
        condition_str: &str,
        name_2_node: &Vec<(String, Arc<SelectionNode>)>,
    ) -> (r: Result<SelectionNode, String>)
        ensures
            r is Ok <==> (condition_tree(
                prepared_condition(condition_str@, table_names(name_2_node@)),
            ) matches Some(t) && node_ok(t, table_view(name_2_node@))),
            r matches Ok(node) ==> forall|e: LogRecord|
                #[trigger] node.eval(e) == cond_eval(
                    condition_tree(
                        prepared_condition(condition_str@, table_names(name_2_node@)),
                    )->0,
                    table_view(name_2_node@),
                    e,
                ),
            r matches Err(m) ==> m@ == "A condition parse error has occurred. "@ + condition_message(
                prepared_condition(condition_str@, table_names(name_2_node@)),
                table_view(name_2_node@),
            ),
    {
        let mut node_keys: Vec<String> = Vec::new();
        let mut i: usize = 0;
        while i < name_2_node.len()
            invariant
                i <= name_2_node@.len(),
                text_views(node_keys@) == table_names(name_2_node@.subrange(0, i as int)),
            decreases name_2_node@.len() - i,
        {
            let ghost before = node_keys@;
            let key = name_2_node[i].0.clone();
            node_keys.push(key);
            assert(text_views(node_keys@) =~= text_views(before).push(key@));
            assert(table_names(name_2_node@.subrange(0, i + 1)) =~= table_names(
                name_2_node@.subrange(0, i as int),
            ).push(name_2_node@[i as int].0@));
            i = i + 1;
        }
        assert(name_2_node@.subrange(0, name_2_node@.len() as int) =~= name_2_node@);
        let converted = Self::convert_condition(condition_str, node_keys.as_slice());
        let parts = split_on_bar(converted.as_str());
        proof {
            crate::chars::lemma_split_bar_nonempty(converted@);
        }
        let result = self.compile_condition_body(parts[0].as_str(), name_2_node);
        match result {
            Ok(node) => Ok(node),
            Err(msg) => Err(
                String::from_str("A condition parse error has occurred. ").concat(msg.as_str()),
            ),
        }
    }

    /// Splits a condition into tokens.
    fn tokenize(&self, condition_str: &str) -> (r: Result<Vec<ConditionToken>, String>)
        ensures
            match r {
                Ok(v) => lex(condition_str@) == Some(token_views(v@)),
                Err(m) => lex(condition_str@) is None && m@ == "An unusable character was found."@,
            },
    {
        let s = chars_of(condition_str);
        let n = s.len();
        let mut tokens: Vec<ConditionToken> = Vec::new();
        let mut i: usize = 0;
        while i < n
            invariant
                n == s@.len(),
                s@ == condition_str@,
                i <= n,
                lex(s@) == match lex_from(s@, i as int) {
                    Some(rest) => Some(token_views(tokens@) + rest),
                    None => None,
                },
            decreases n - i,
        {
            let ghost before = token_views(tokens@);
            let c = s[i];
            if c == '(' {
                let ghost old_tokens = tokens@;
                let t = ConditionToken::LeftParenthesis;
                assert(t.spec_view() == TokenSpec::LeftParenthesis);
                tokens.push(t);
                proof {
                    lemma_token_views(tokens@);
                    lemma_token_views(old_tokens);
                }
                assert(token_views(tokens@)[before.len() as int] == TokenSpec::LeftParenthesis);
                assert(token_views(tokens@) =~= before.push(TokenSpec::LeftParenthesis));
                proof {
                    lemma_push_concat(before, TokenSpec::LeftParenthesis, lex_from(s@, i + 1));
                }
                i = i + 1;
            } else if c == ')' {
                let ghost old_tokens = tokens@;
                let t = ConditionToken::RightParenthesis;
                assert(t.spec_view() == TokenSpec::RightParenthesis);
                tokens.push(t);
                proof {
                    lemma_token_views(tokens@);
                    lemma_token_views(old_tokens);
                }
                assert(token_views(tokens@)[before.len() as int] == TokenSpec::RightParenthesis);
                assert(token_views(tokens@) =~= before.push(TokenSpec::RightParenthesis));
                proof {
                    lemma_push_concat(before, TokenSpec::RightParenthesis, lex_from(s@, i + 1));
                }
                i = i + 1;
            } else if c == ' ' {
                i = i + 1;
            } else if is_word_char_exec(c) {
                let mut j: usize = i + 1;
                while j < n && is_word_char_exec(s[j])
                    invariant
                        n == s@.len(),
                        i + 1 <= j <= n,
                        word_len(s@, i + 1) == (j - (i + 1)) + word_len(s@, j as int),
                    decreases n - j,
                {
                    j = j + 1;
                }
                assert(word_len(s@, j as int) == 0);
                let word = string_of(&subvec(&s, i, j));
                let t = self.to_enum(word);
                let ghost old_tokens = tokens@;
                tokens.push(t);
                proof {
                    lemma_views_push(old_tokens, t);
                }
                assert(token_views(tokens@) =~= before.push(word_token(s@.subrange(i as int, j as int))));
                proof {
                    lemma_push_concat(
                        before,
                        word_token(s@.subrange(i as int, j as int)),
                        lex_from(s@, j as int),
                    );
                }
                i = j;
            } else {
                return Err(String::from_str("An unusable character was found."));
            }
        }
        Ok(tokens)
    }

    /// Replaces each `all of X*` by `(a and b ...)` and each `1 of X*` by
    /// `(a or b ...)`, over the names in `node_keys` that begin with `X`.
    pub fn convert_condition(condition_str: &str, node_keys: &[String]) -> (r: String)
        ensures
            r@ == expand_of(condition_str@, text_views(node_keys@)),
    {
        let ghost names = text_views(node_keys@);
        let s = chars_of(condition_str);
        let n = s.len();
        let all_w = vec!['a', 'l', 'l', ' ', 'o', 'f', ' '];
        let one_w = vec!['1', ' ', 'o', 'f', ' '];
        assert(all_w@ =~= all_of_word());
        assert(one_w@ =~= one_of_word());
        let mut out: Vec<char> = Vec::new();
        let mut p: usize = 0;
        while p < n
            invariant
                n == s@.len(),
                s@ == condition_str@,
                p <= n,
                all_w@ == all_of_word(),
                one_w@ == one_of_word(),
                names == text_views(node_keys@),
                expand_of(s@, names) == out@ + expand_from(s@, p as int, names),
            decreases n - p,
        {
            let ghost sp = s@;
            let tail = subvec(&s, p, n);
            let k: usize = if vec_starts_with(&tail, &all_w) {
                7
            } else if vec_starts_with(&tail, &one_w) {
                5
            } else {
                0
            };
            assert(k as int == of_word_len(sp, p as int));
            let mut q: usize = p + k;
            proof {
                if k > 0 {
                    assert(p + k <= n);
                }
            }
            if k > 0 {
                while q < n && s[q] != '*'
                    invariant
                        n == s@.len(),
                        p + k <= q <= n,
                        star_from(sp, (p + k) as int) == star_from(sp, q as int),
                        sp == s@,
                    decreases n - q,
                {
                    q = q + 1;
                }
            }
            proof {
                if k > 0 {
                    assert(q as int == star_from(sp, (p + k) as int));
                }
            }
            if k > 0 && q > p + k && q < n {
                let prefix = subvec(&s, p + k, q);
                let mut piece: Vec<char> = vec!['('];
                let sep: Vec<char> = if k == 7 {
                    vec![' ', 'a', 'n', 'd', ' ']
                } else {
                    vec![' ', 'o', 'r', ' ']
                };
                assert(sep@ =~= junction(k == 7));
                let mut joined: Vec<char> = Vec::new();
                let mut any = false;
                let mut m: usize = 0;
                while m < node_keys.len()
                    invariant
                        m <= node_keys@.len(),
                        names == text_views(node_keys@),
                        joined@ == join(
                            names_with_prefix(names.subrange(0, m as int), prefix@),
                            sep@,
                        ),
                        any == (names_with_prefix(names.subrange(0, m as int), prefix@).len() > 0),
                    decreases node_keys@.len() - m,
                {
                    let ghost before = names_with_prefix(names.subrange(0, m as int), prefix@);
                    assert(names.subrange(0, m + 1).drop_last() =~= names.subrange(0, m as int));
                    let name = chars_of(node_keys[m].as_str());
                    if vec_starts_with(&name, &prefix) {
                        if any {
                            let mut sp2 = sep.clone();
                            joined.append(&mut sp2);
                        }
                        let mut nm = name;
                        joined.append(&mut nm);
                        let ghost after = names_with_prefix(names.subrange(0, m + 1), prefix@);
                        assert(after =~= before.push(names[m as int]));
                        assert(after.drop_last() =~= before);
                        assert(joined@ =~= join(after, sep@));
                        any = true;
                    } else {
                        assert(names_with_prefix(names.subrange(0, m + 1), prefix@) =~= before);
                    }
                    m = m + 1;
                }
                assert(names.subrange(0, node_keys@.len() as int) =~= names);
                piece.append(&mut joined);
                piece.push(')');
                proof {
                    assert(sp.subrange((p + k) as int, q as int) =~= prefix@);
                }
                out.append(&mut piece);
                assert(out@ + expand_from(sp, q + 1, names) =~= expand_of(s@, names));
                p = q + 1;
            } else {
                out.push(s[p]);
                p = p + 1;
            }
        }
        string_of(&out)
    }
}

} // verus!
