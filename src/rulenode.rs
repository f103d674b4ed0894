//! A rule: its source, its YAML, and the selection tree compiled from its `detection` block.
use crate::chars::{ends_with, vec_ends_with};
use crate::condition_parser::{
    condition_message, cond_eval, condition_tree, node_ok, prepared_condition, table_names, table_view,
    ConditionCompiler,
};
use crate::matchers::{init_succeeds, text_views, DefaultMatcher};
use crate::record::LogRecord;
use crate::selectionnodes::{
    AllSelectionNode, AndSelectionNode, LeafSelectionNode, OrSelectionNode, SelectionNode,
};
use crate::text::text_eq;
use crate::yaml::YamlValue;
use std::sync::Arc;
use vstd::prelude::*;

verus! {

/// The text of a mapping key; keys that are not strings read as empty.
pub open spec fn key_text(k: YamlValue) -> Seq<char> {
    match k {
        YamlValue::Str(s) => s@,
        _ => Seq::<char>::empty(),
    }
}

/// The text `|all`.
pub open spec fn bar_all() -> Seq<char> {
    seq!['|', 'a', 'l', 'l']
}

/// A list under this key list is a conjunction (`field|...|all`).
pub open spec fn list_is_and(keys: Seq<Seq<char>>) -> bool {
    keys.len() > 0 && ends_with(keys[0], bar_all()) && keys[0] != bar_all()
}

/// A list under this key list is the `|all` form.
pub open spec fn list_is_all(keys: Seq<Seq<char>>) -> bool {
    keys.len() > 0 && keys[0] == bar_all()
}

/// `node` is the selection tree of the YAML value `y` under the key list `keys`:
/// mappings are conjunctions (each child's key appended), lists are
/// disjunctions unless the key asks for all of them, scalars are leaves.
pub open spec fn built_from(node: SelectionNode, keys: Seq<Seq<char>>, y: YamlValue) -> bool
    decreases y,
{
    match y {
        YamlValue::Hash(entries) => match node {
            SelectionNode::And(n) => n.child_nodes@.len() == entries@.len() && forall|i: int|
                0 <= i < entries@.len() ==> built_from(
                    #[trigger] n.child_nodes@[i],
                    keys.push(key_text(entries@[i].0)),
                    entries@[i].1,
                ),
            _ => false,
        },
        YamlValue::Array(items) => {
            if list_is_and(keys) {
                match node {
                    SelectionNode::And(n) => n.child_nodes@.len() == items@.len() && forall|i: int|
                        0 <= i < items@.len() ==> built_from(#[trigger] n.child_nodes@[i], keys, items@[i]),
                    _ => false,
                }
            } else if list_is_all(keys) {
                match node {
                    SelectionNode::All(n) => n.child_nodes@.len() == items@.len() && forall|i: int|
                        0 <= i < items@.len() ==> built_from(#[trigger] n.child_nodes@[i], keys, items@[i]),
                    _ => false,
                }
            } else {
                match node {
                    SelectionNode::Or(n) => n.child_nodes@.len() == items@.len() && forall|i: int|
                        0 <= i < items@.len() ==> built_from(#[trigger] n.child_nodes@[i], keys, items@[i]),
                    _ => false,
                }
            }
        },
        _ => match node {
            SelectionNode::Leaf(l) => l.matcher.compiled_from(keys, y) && text_views(l.key_list@) == keys,
            _ => false,
        },
    }
}

/// Every scalar of `y` under `keys` makes a valid matcher.
pub open spec fn leaves_ok(keys: Seq<Seq<char>>, y: YamlValue) -> bool
    decreases y,
{
    match y {
        YamlValue::Hash(entries) => forall|i: int|
            0 <= i < entries@.len() ==> leaves_ok(keys.push(key_text(#[trigger] entries@[i].0)), entries@[i].1),
        YamlValue::Array(items) => forall|i: int|
            0 <= i < items@.len() ==> leaves_ok(keys, #[trigger] items@[i]),
        _ => y is Null || init_succeeds(keys, y),
    }
}


fn key_string(k: &YamlValue) -> (r: String)
    ensures
        r@ == key_text(*k),
{
    match k {
        YamlValue::Str(s) => s.clone(),
        _ => String::new(),
    }
}

fn copy_keys(key_list: &Vec<String>) -> (r: Vec<String>)
    ensures
        text_views(r@) == text_views(key_list@),
{
    let mut out: Vec<String> = Vec::new();
    let mut i: usize = 0;
    while i < key_list.len()
        invariant
            i <= key_list@.len(),
            text_views(out@) == text_views(key_list@.subrange(0, i as int)),
        decreases key_list@.len() - i,
    {
        let ghost before = out@;
        let c = key_list[i].clone();
        out.push(c);
        assert(out@ =~= before.push(c));
        assert(key_list@.subrange(0, i + 1) =~= key_list@.subrange(0, i as int).push(key_list@[i as int]));
        assert(text_views(out@) =~= text_views(before).push(c@));
        i = i + 1;
        assert(text_views(out@) =~= text_views(key_list@.subrange(0, i as int)));
    }
    assert(key_list@.subrange(0, key_list@.len() as int) =~= key_list@);
    out
}

/// A key of the detection block that names a selection.
pub open spec fn is_selection_key(name: Seq<char>) -> bool {
    name.len() > 0 && name != "condition"@ && name != "timeframe"@
}

/// The named selections of a detection block's entries, in order.
pub open spec fn selection_entries(entries: Seq<(YamlValue, YamlValue)>) -> Seq<(Seq<char>, YamlValue)>
    decreases entries.len(),
{
    if entries.len() == 0 {
        Seq::<(Seq<char>, YamlValue)>::empty()
    } else {
        let e = entries.last();
        selection_entries(entries.drop_last()) + if is_selection_key(key_text(e.0)) {
            seq![(key_text(e.0), e.1)]
        } else {
            Seq::<(Seq<char>, YamlValue)>::empty()
        }
    }
}

/// The value under the first string key `key` of a mapping from entry `i` on.
pub open spec fn find_key(entries: Seq<(YamlValue, YamlValue)>, key: Seq<char>, i: int) -> Option<YamlValue>
    decreases entries.len() - i,
{
    if i < 0 || i >= entries.len() {
        None
    } else if entries[i].0 is Str && key_text(entries[i].0) == key {
        Some(entries[i].1)
    } else {
        find_key(entries, key, i + 1)
    }
}

/// The value under the string key `key` of a mapping; `None` for anything else.
pub open spec fn yaml_lookup(y: YamlValue, key: Seq<char>) -> Option<YamlValue> {
    match y {
        YamlValue::Hash(entries) => find_key(entries@, key, 0),
        _ => None,
    }
}

/// Looks up a string key in a mapping.
pub fn yaml_get<'a>(y: &'a YamlValue, key: &str) -> (r: Option<&'a YamlValue>)
    ensures
        match r {
            Some(v) => yaml_lookup(*y, key@) == Some(*v),
            None => yaml_lookup(*y, key@) is None,
        },
{
    match y {
        YamlValue::Hash(entries) => {
            let mut i: usize = 0;
            assert(yaml_lookup(*y, key@) == find_key(entries@, key@, 0));
            while i < entries.len()
                invariant
                    yaml_lookup(*y, key@) == find_key(entries@, key@, 0),
                    i <= entries@.len(),
                    find_key(entries@, key@, 0) == find_key(entries@, key@, i as int),
                decreases entries@.len() - i,
            {
                let is_key = match &entries[i].0 {
                    YamlValue::Str(s) => {
                        let b = text_eq(s.as_str(), key);
                        assert(entries@[i as int].0 == YamlValue::Str(*s));
                        b
                    },
                    _ => false,
                };
                if is_key {
                    return Some(&entries[i].1);
                }
                i = i + 1;
            }
            None
        },
        _ => None,
    }
}

/// Every named selection of a detection block compiles, and there is one at least.
pub open spec fn selections_ok(y: YamlValue) -> bool {
    match y {
        YamlValue::Hash(entries) => {
            let sel = selection_entries(entries@);
            sel.len() > 0 && forall|k: int|
                0 <= k < sel.len() ==> leaves_ok(Seq::<Seq<char>>::empty(), #[trigger] sel[k].1)
        },
        _ => false,
    }
}

/// The table holds the named selections of the detection block, in order, each compiled.
pub open spec fn selections_built(table: Seq<(String, Arc<SelectionNode>)>, y: YamlValue) -> bool {
    match y {
        YamlValue::Hash(entries) => {
            let sel = selection_entries(entries@);
            table.len() == sel.len() && forall|k: int|
                0 <= k < sel.len() ==> (#[trigger] table[k]).0@ == sel[k].0 && built_from(
                    *table[k].1,
                    Seq::<Seq<char>>::empty(),
                    sel[k].1,
                )
        },
        _ => false,
    }
}

/// The condition of a detection block: its `condition` string, or the name
/// of its only selection when it has none.
pub open spec fn condition_text(y: YamlValue, names: Seq<Seq<char>>) -> Option<Seq<char>> {
    match yaml_lookup(y, "condition"@) {
        Some(YamlValue::Str(s)) => Some(s@),
        _ => if names.len() == 1 {
            Some(names[0])
        } else {
            None
        },
    }
}

/// The condition of the detection block compiles over the table.
pub open spec fn condition_ok(y: YamlValue, table: Seq<(String, Arc<SelectionNode>)>) -> bool {
    match condition_text(y, table_names(table)) {
        Some(c) => condition_tree(prepared_condition(c, table_names(table))) matches Some(t) && node_ok(
            t,
            table_view(table),
        ),
        None => false,
    }
}

/// `n` decides records as the condition of the detection block does.
pub open spec fn condition_compiled(
    n: SelectionNode,
    y: YamlValue,
    table: Seq<(String, Arc<SelectionNode>)>,
) -> bool {
    let c = condition_text(y, table_names(table))->0;
    forall|e: LogRecord|
        #[trigger] n.eval(e) == cond_eval(
            condition_tree(prepared_condition(c, table_names(table)))->0,
            table_view(table),
            e,
        )
}

/// The errors of a detection block, where they are fixed by the block and the
/// table of its selections: no mapping; no named selection; no condition
/// with two or more selections; a condition that does not compile.
/// `None` when the block compiles, or when a selection's matcher fails.
pub open spec fn detection_errors(
    y: YamlValue,
    table: Seq<(String, Arc<SelectionNode>)>,
) -> Option<Seq<Seq<char>>> {
    match y {
        YamlValue::Hash(entries) => if selection_entries(entries@).len() == 0 {
            Some(seq!["There is no selection node under detection."@])
        } else if !selections_ok(y) || condition_ok(y, table) {
            None
        } else {
            match condition_text(y, table_names(table)) {
                Some(c) => Some(
                    seq![
                        "A condition parse error has occurred. "@ + condition_message(
                            prepared_condition(c, table_names(table)),
                            table_view(table),
                        ),
                    ],
                ),
                None => Some(seq!["There is no condition node under detection."@]),
            }
        },
        _ => Some(seq!["Detection node was not found."@]),
    }
}

/// The `detection` block of a rule, compiled.
pub struct DetectionNode {
    /// The named selections, in the order the rule lists them.
    pub name_to_selection: Vec<(String, Arc<SelectionNode>)>,
    /// The tree of the condition, once compiled.
    pub condition: Option<SelectionNode>,
}

impl DetectionNode {
    pub fn new() -> (r: DetectionNode)
        ensures
            r.name_to_selection@.len() == 0,
            r.condition is None,
    {
        DetectionNode { name_to_selection: Vec::new(), condition: None }
    }

    /// Builds the selection tree of one named selection.
    pub fn parse_selection(selection_yaml: &YamlValue) -> (r: Result<SelectionNode, Vec<String>>)
        ensures
            r is Ok <==> leaves_ok(Seq::<Seq<char>>::empty(), *selection_yaml),
            r matches Ok(n) ==> built_from(n, Seq::<Seq<char>>::empty(), *selection_yaml),
            r matches Err(es) ==> es@.len() > 0,
    {
        let empty_keys: Vec<String> = Vec::new();
        assert(text_views(empty_keys@) =~= Seq::<Seq<char>>::empty());
        Self::parse_selection_recursively(&empty_keys, selection_yaml)
    }

    /// Builds the selection tree of a YAML value under a key list.
    pub fn parse_selection_recursively(key_list: &Vec<String>, yaml: &YamlValue) -> (r: Result<
        SelectionNode,
        Vec<String>,
    >)
        ensures
            r is Ok <==> leaves_ok(text_views(key_list@), *yaml),
            r matches Ok(n) ==> built_from(n, text_views(key_list@), *yaml),
            r matches Err(es) ==> es@.len() > 0,
        decreases yaml,
    {
        let ghost keys = text_views(key_list@);
        match yaml {
            YamlValue::Hash(entries) => {
                let children = Self::parse_entries(key_list, entries)?;
                let ghost kids = children@;
                let node = SelectionNode::And(AndSelectionNode { child_nodes: children });
                assert(node->And_0.child_nodes@ == kids);
                Ok(node)
            },
            YamlValue::Array(items) => {
                let children = Self::parse_items(key_list, items)?;
                let ghost kids = children@;
                let all_suffix = vec!['|', 'a', 'l', 'l'];
                assert(all_suffix@ =~= bar_all());
                let mut is_and = false;
                let mut is_all = false;
                if key_list.len() > 0 {
                    let first = crate::text::chars_of(key_list[0].as_str());
                    is_all = text_eq(key_list[0].as_str(), "|all");
                    proof {
                        reveal_strlit("|all");
                        assert("|all"@ =~= bar_all());
                    }
                    is_and = vec_ends_with(&first, &all_suffix) && !is_all;
                }
                assert(is_and == list_is_and(keys));
                assert(is_all == list_is_all(keys));
                if is_and {
                    let node = SelectionNode::And(AndSelectionNode { child_nodes: children });
                    assert(node->And_0.child_nodes@ == kids);
                    Ok(node)
                } else if is_all {
                    let node = SelectionNode::All(AllSelectionNode { child_nodes: children });
                    assert(node->All_0.child_nodes@ == kids);
                    Ok(node)
                } else {
                    let node = SelectionNode::Or(OrSelectionNode { child_nodes: children });
                    assert(node->Or_0.child_nodes@ == kids);
                    Ok(node)
                }
            },
            _ => {
                let keys_copy = copy_keys(key_list);
                let mut matcher = DefaultMatcher::new();
                match matcher.init(key_list, yaml) {
                    Ok(()) => {
                        let leaf = LeafSelectionNode::new(keys_copy, matcher);
                        Ok(SelectionNode::Leaf(leaf))
                    },
                    Err(es) => Err(es),
                }
            },
        }
    }

    /// Compiles every named selection of the detection block.
    pub fn parse_name_to_selection(&mut self, detection_yaml: &YamlValue) -> (r: Result<
        (),
        Vec<String>,
    >)
        ensures
            r is Ok <==> selections_ok(*detection_yaml),
            r is Ok ==> selections_built(final(self).name_to_selection@, *detection_yaml),
            r matches Err(es) ==> es@.len() > 0,
            !(detection_yaml is Hash) ==> (r matches Err(es) && text_views(es@) == seq![
                "Detection node was not found."@,
            ]),
            detection_yaml matches YamlValue::Hash(entries) && selection_entries(entries@).len() == 0
                ==> (r matches Err(es) && text_views(es@) == seq![
                "There is no selection node under detection."@,
            ]),
            final(self).condition == old(self).condition,
    {
        self.name_to_selection = Vec::new();
        let entries = match detection_yaml {
            YamlValue::Hash(entries) => entries,
            _ => {
                let es = vec![String::from_str("Detection node was not found.")];
                assert(text_views(es@) =~= seq!["Detection node was not found."@]);
                return Err(es);
            },
        };
        let ghost ev = entries@;
        let mut errs: Vec<String> = Vec::new();
        let mut i: usize = 0;
        while i < entries.len()
            invariant
                ev == entries@,
                i <= ev.len(),
                errs@.len() == 0 <==> forall|k: int|
                    0 <= k < selection_entries(ev.subrange(0, i as int)).len() ==> leaves_ok(
                        Seq::<Seq<char>>::empty(),
                        #[trigger] selection_entries(ev.subrange(0, i as int))[k].1,
                    ),
                errs@.len() == 0 ==> self.name_to_selection@.len() == selection_entries(
                    ev.subrange(0, i as int),
                ).len() && forall|k: int|
                    0 <= k < self.name_to_selection@.len() ==> (#[trigger] self.name_to_selection@[k]).0@
                        == selection_entries(ev.subrange(0, i as int))[k].0 && built_from(
                        *self.name_to_selection@[k].1,
                        Seq::<Seq<char>>::empty(),
                        selection_entries(ev.subrange(0, i as int))[k].1,
                    ),
                self.condition == old(self).condition,
            decreases ev.len() - i,
        {
            let ghost prev = selection_entries(ev.subrange(0, i as int));
            assert(ev.subrange(0, i + 1).drop_last() =~= ev.subrange(0, i as int));
            assert(ev.subrange(0, i + 1).last() == ev[i as int]);
            let name = key_string(&entries[i].0);
            let skip = name.as_str().is_empty() || text_eq(name.as_str(), "condition") || text_eq(
                name.as_str(),
                "timeframe",
            );
            if skip {
                assert(selection_entries(ev.subrange(0, i + 1)) =~= prev);
            } else {
                let ghost next = prev.push((name@, ev[i as int].1));
                assert(selection_entries(ev.subrange(0, i + 1)) =~= next);
                match Self::parse_selection(&entries[i].1) {
                    Ok(node) => {
                        proof {
                            if errs@.len() == 0 {
                                assert forall|k: int| 0 <= k < next.len() implies leaves_ok(
                                    Seq::<Seq<char>>::empty(),
                                    #[trigger] next[k].1,
                                ) by {
                                    if k < prev.len() {
                                        assert(next[k] == prev[k]);
                                    }
                                }
                            } else {
                                let k0 = choose|k: int| 0 <= k < prev.len() && !leaves_ok(Seq::<Seq<char>>::empty(), #[trigger] prev[k].1);
                                assert(next[k0] == prev[k0]);
                            }
                        }
                        if errs.len() == 0 {
                            let ghost before = self.name_to_selection@;
                            self.name_to_selection.push((name, Arc::new(node)));
                            assert forall|k: int| 0 <= k < self.name_to_selection@.len() implies (
                            #[trigger] self.name_to_selection@[k]).0@ == next[k].0 && built_from(
                                *self.name_to_selection@[k].1,
                                Seq::<Seq<char>>::empty(),
                                next[k].1,
                            ) by {
                                if k < before.len() {
                                    assert(self.name_to_selection@[k] == before[k]);
                                }
                            }
                        }
                        assert forall|k: int| 0 <= k < next.len() implies #[trigger] next[k] == (
                        if k < prev.len() {
                            prev[k]
                        } else {
                            (name@, ev[i as int].1)
                        }) by {}
                    },
                    Err(mut e) => {
                        errs.append(&mut e);
                        assert(next[prev.len() as int].1 == ev[i as int].1);
                    },
                }
            }
            i = i + 1;
        }
        assert(ev.subrange(0, ev.len() as int) =~= ev);
        if errs.len() > 0 {
            return Err(errs);
        }
        if self.name_to_selection.len() == 0 {
            let es = vec![String::from_str("There is no selection node under detection.")];
            assert(text_views(es@) =~= seq!["There is no selection node under detection."@]);
            return Err(es);
        }
        Ok(())
    }

    /// Compiles the named selections, then the condition over them.
    pub fn init(&mut self, detection_yaml: &YamlValue) -> (r: Result<(), Vec<String>>)
        ensures
            r is Ok <==> (selections_ok(*detection_yaml) && condition_ok(
                *detection_yaml,
                final(self).name_to_selection@,
            )),
            r is Ok ==> selections_built(final(self).name_to_selection@, *detection_yaml),
            r is Ok ==> (final(self).condition matches Some(n) && condition_compiled(
                n,
                *detection_yaml,
                final(self).name_to_selection@,
            )),
            r matches Err(es) ==> es@.len() > 0,
            r matches Err(es) ==> (detection_errors(*detection_yaml, final(self).name_to_selection@) matches Some(
                ms,
            ) ==> text_views(es@) == ms),
            r is Err ==> final(self).condition is None,
    {
        self.condition = None;
        self.parse_name_to_selection(detection_yaml)?;
        let ghost names = table_names(self.name_to_selection@);
        let condition = yaml_get(detection_yaml, "condition");
        let cond_str: String = match condition {
            Some(YamlValue::Str(c)) => c.clone(),
            _ => {
                if self.name_to_selection.len() >= 2 {
                    let es = vec![String::from_str("There is no condition node under detection.")];
                    assert(text_views(es@) =~= seq!["There is no condition node under detection."@]);
                    return Err(es);
                }
                self.name_to_selection[0].0.clone()
            },
        };
        assert(condition_text(*detection_yaml, names) == Some(cond_str@));
        let compiler = ConditionCompiler::new();
        match compiler.compile_condition(cond_str.as_str(), &self.name_to_selection) {
            Ok(node) => {
                self.condition = Some(node);
                Ok(())
            },
            Err(msg) => {
                let es = vec![msg];
                assert(text_views(es@) =~= seq![msg@]);
                Err(es)
            },
        }
    }

    /// Whether the record satisfies the compiled condition; false before compiling.
    pub fn select(&self, event_record: &LogRecord) -> (r: bool)
        ensures
            r == match self.condition {
                Some(n) => n.eval(*event_record),
                None => false,
            },
    {
        match &self.condition {
            Some(n) => n.select(event_record),
            None => false,
        }
    }

    fn parse_entries(key_list: &Vec<String>, entries: &Vec<(YamlValue, YamlValue)>) -> (r: Result<
        Vec<SelectionNode>,
        Vec<String>,
    >)
        ensures
            r is Ok <==> forall|i: int|
                0 <= i < entries@.len() ==> leaves_ok(
                    text_views(key_list@).push(key_text(#[trigger] entries@[i].0)),
                    entries@[i].1,
                ),
            r matches Ok(v) ==> v@.len() == entries@.len() && forall|i: int|
                0 <= i < entries@.len() ==> built_from(
                    #[trigger] v@[i],
                    text_views(key_list@).push(key_text(entries@[i].0)),
                    entries@[i].1,
                ),
            r matches Err(es) ==> es@.len() > 0,
        decreases entries,
    {
        let ghost keys = text_views(key_list@);
        let mut out: Vec<SelectionNode> = Vec::new();
        let mut errs: Vec<String> = Vec::new();
        let mut i: usize = 0;
        while i < entries.len()
            invariant
                keys == text_views(key_list@),
                i <= entries@.len(),
                errs@.len() == 0 <==> forall|j: int|
                    0 <= j < i ==> leaves_ok(keys.push(key_text(#[trigger] entries@[j].0)), entries@[j].1),
                errs@.len() == 0 ==> out@.len() == i && forall|j: int|
                    0 <= j < i ==> built_from(
                        #[trigger] out@[j],
                        keys.push(key_text(entries@[j].0)),
                        entries@[j].1,
                    ),
            decreases entries@.len() - i,
        {
            let mut child_keys = copy_keys(key_list);
            let k = key_string(&entries[i].0);
            let ghost ck = text_views(child_keys@);
            child_keys.push(k);
            assert(text_views(child_keys@) =~= ck.push(k@));
            match Self::parse_selection_recursively(&child_keys, &entries[i].1) {
                Ok(c) => {
                    if errs.len() == 0 {
                        out.push(c);
                    }
                },
                Err(mut e) => {
                    errs.append(&mut e);
                },
            }
            i = i + 1;
        }
        if errs.len() > 0 {
            Err(errs)
        } else {
            Ok(out)
        }
    }

    fn parse_items(key_list: &Vec<String>, items: &Vec<YamlValue>) -> (r: Result<
        Vec<SelectionNode>,
        Vec<String>,
    >)
        ensures
            r is Ok <==> forall|i: int|
                0 <= i < items@.len() ==> leaves_ok(text_views(key_list@), #[trigger] items@[i]),
            r matches Ok(v) ==> v@.len() == items@.len() && forall|i: int|
                0 <= i < items@.len() ==> built_from(#[trigger] v@[i], text_views(key_list@), items@[i]),
            r matches Err(es) ==> es@.len() > 0,
        decreases items,
    {
        let ghost keys = text_views(key_list@);
        let mut out: Vec<SelectionNode> = Vec::new();
        let mut errs: Vec<String> = Vec::new();
        let mut i: usize = 0;
        while i < items.len()
            invariant
                keys == text_views(key_list@),
                i <= items@.len(),
                errs@.len() == 0 <==> forall|j: int| 0 <= j < i ==> leaves_ok(keys, #[trigger] items@[j]),
                errs@.len() == 0 ==> out@.len() == i && forall|j: int|
                    0 <= j < i ==> built_from(#[trigger] out@[j], keys, items@[j]),
            decreases items@.len() - i,
        {
            match Self::parse_selection_recursively(key_list, &items[i]) {
                Ok(c) => {
                    if errs.len() == 0 {
                        out.push(c);
                    }
                },
                Err(mut e) => {
                    errs.append(&mut e);
                },
            }
            i = i + 1;
        }
        if errs.len() > 0 {
            Err(errs)
        } else {
            Ok(out)
        }
    }
}


/// A rule: where it came from, its YAML, and its compiled detection block.
pub struct RuleNode {
    pub rulepath: String,
    pub yaml: YamlValue,
    pub detection: DetectionNode,
}

/// The text under a string key of a mapping; empty when there is none.
pub open spec fn text_entry(y: YamlValue, key: Seq<char>) -> Seq<char> {
    match yaml_lookup(y, key) {
        Some(YamlValue::Str(t)) => t@,
        _ => Seq::<char>::empty(),
    }
}

/// The `detection` block of a rule's YAML (a non-mapping when it has none).
pub open spec fn detection_block(y: YamlValue) -> YamlValue {
    match yaml_lookup(y, "detection"@) {
        Some(d) => d,
        None => YamlValue::Other,
    }
}

impl RuleNode {
    /// A rule not compiled yet; it matches nothing.
    pub fn new(rule_path: String, yaml_data: YamlValue) -> (r: RuleNode)
        ensures
            r.rulepath == rule_path,
            r.yaml == yaml_data,
            r.detection.name_to_selection@.len() == 0,
            r.detection.condition is None,
    {
        RuleNode { rulepath: rule_path, yaml: yaml_data, detection: DetectionNode::new() }
    }

    /// Whether the rule matches the record: its compiled condition does.
    pub open spec fn matches_spec(&self, e: LogRecord) -> bool {
        match self.detection.condition {
            Some(n) => n.eval(e),
            None => false,
        }
    }

    /// Compiles the rule's detection block.
    pub fn init(&mut self) -> (r: Result<(), Vec<String>>)
        ensures
            final(self).rulepath == old(self).rulepath,
            final(self).yaml == old(self).yaml,
            r is Ok <==> (selections_ok(detection_block(old(self).yaml)) && condition_ok(
                detection_block(old(self).yaml),
                final(self).detection.name_to_selection@,
            )),
            r is Ok ==> selections_built(
                final(self).detection.name_to_selection@,
                detection_block(old(self).yaml),
            ),
            r is Ok ==> (final(self).detection.condition matches Some(n) && condition_compiled(
                n,
                detection_block(old(self).yaml),
                final(self).detection.name_to_selection@,
            )),
            r matches Err(es) ==> es@.len() > 0,
            r matches Err(es) ==> (detection_errors(
                detection_block(old(self).yaml),
                final(self).detection.name_to_selection@,
            ) matches Some(ms) ==> text_views(es@) == ms),
            r is Err ==> final(self).detection.condition is None,
    {
        let missing = YamlValue::Other;
        match yaml_get(&self.yaml, "detection") {
            Some(d) => self.detection.init(d),
            None => self.detection.init(&missing),
        }
    }

    /// Evaluates the rule on a record.
    pub fn select(&self, event_record: &LogRecord) -> (r: bool)
        ensures
            r == self.matches_spec(*event_record),
    {
        self.detection.select(event_record)
    }

    /// The rule's `title`, if it has a text one.
    pub fn title(&self) -> (r: Option<String>)
        ensures
            r matches Some(t) ==> yaml_lookup(self.yaml, "title"@) == Some(YamlValue::Str(t)),
            r is None ==> !(yaml_lookup(self.yaml, "title"@) matches Some(YamlValue::Str(_))),
    {
        match yaml_get(&self.yaml, "title") {
            Some(YamlValue::Str(t)) => Some(t.clone()),
            _ => None,
        }
    }

    /// The rule's `level`, if it has a text one.
    pub fn level(&self) -> (r: Option<String>)
        ensures
            r matches Some(t) ==> yaml_lookup(self.yaml, "level"@) == Some(YamlValue::Str(t)),
            r is None ==> !(yaml_lookup(self.yaml, "level"@) matches Some(YamlValue::Str(_))),
    {
        match yaml_get(&self.yaml, "level") {
            Some(YamlValue::Str(t)) => Some(t.clone()),
            _ => None,
        }
    }
}

/// A rule's verdict is its tree's verdict, and it depends only on the fields
/// that the tree's leaves read: records that agree on those fields get the
/// same verdict.
pub proof fn lemma_rule_reads_only_leaf_fields(rule: RuleNode, e1: LogRecord, e2: LogRecord)
    requires
        rule.detection.condition matches Some(t) && forall|name: Seq<char>|
            #[trigger] t.reads_field(name) ==> e1.field_spec(name) == e2.field_spec(name),
    ensures
        rule.matches_spec(e1) == rule.detection.condition->0.eval(e1),
        rule.matches_spec(e1) == rule.matches_spec(e2),
{
    let t = rule.detection.condition->0;
    crate::selectionnodes::lemma_eval_reads_only_leaf_fields(&t, e1, e2);
}

} // verus!
