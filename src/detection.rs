//! Runs every rule over every record and reports the matches.
use crate::record::LogRecord;
use crate::rulenode::{text_entry, RuleNode};
use vstd::prelude::*;

verus! {

/// One match: the rule that fired and the record it fired on.
pub struct DetectInfo {
    pub rulepath: String,
    pub ruletitle: String,
    pub level: String,
    pub logdata: LogRecord,
}

/// The (record, rule) index pairs of the rules among `rules` that match record `e`
/// (record index `i`), in rule order.
pub open spec fn matching_rules(e: LogRecord, i: int, rules: Seq<RuleNode>) -> Seq<(int, int)>
    decreases rules.len(),
{
    if rules.len() == 0 {
        Seq::<(int, int)>::empty()
    } else {
        matching_rules(e, i, rules.drop_last()) + if rules.last().matches_spec(e) {
            seq![(i, rules.len() - 1)]
        } else {
            Seq::<(int, int)>::empty()
        }
    }
}

/// All (record, rule) index pairs that match: records in order, and for each
/// record the rules in order.
pub open spec fn detection_pairs(records: Seq<LogRecord>, rules: Seq<RuleNode>) -> Seq<(int, int)>
    decreases records.len(),
{
    if records.len() == 0 {
        Seq::<(int, int)>::empty()
    } else {
        detection_pairs(records.drop_last(), rules) + matching_rules(
            records.last(),
            records.len() - 1,
            rules,
        )
    }
}

/// Evaluates every rule on every record, one report per match.
pub fn detect(results: &Vec<LogRecord>, rulenode: &Vec<RuleNode>) -> (r: Vec<DetectInfo>)
    ensures
        r@.len() == detection_pairs(results@, rulenode@).len(),
        forall|k: int|
            0 <= k < r@.len() ==> {
                let p = #[trigger] detection_pairs(results@, rulenode@)[k];
                &&& 0 <= p.0 < results@.len()
                &&& 0 <= p.1 < rulenode@.len()
                &&& r@[k].logdata == results@[p.0]
                &&& r@[k].rulepath@ == rulenode@[p.1].rulepath@
                &&& r@[k].ruletitle@ == text_entry(rulenode@[p.1].yaml, "title"@)
                &&& r@[k].level@ == text_entry(rulenode@[p.1].yaml, "level"@)
            },
{
    let mut out: Vec<DetectInfo> = Vec::new();
    let mut i: usize = 0;
    while i < results.len()
        invariant
            i <= results@.len(),
            out@.len() == detection_pairs(results@.subrange(0, i as int), rulenode@).len(),
            forall|k: int|
                0 <= k < out@.len() ==> {
                    let p = #[trigger] detection_pairs(results@.subrange(0, i as int), rulenode@)[k];
                    &&& 0 <= p.0 < i
                    &&& 0 <= p.1 < rulenode@.len()
                    &&& out@[k].logdata == results@[p.0]
                    &&& out@[k].rulepath@ == rulenode@[p.1].rulepath@
                    &&& out@[k].ruletitle@ == text_entry(rulenode@[p.1].yaml, "title"@)
                    &&& out@[k].level@ == text_entry(rulenode@[p.1].yaml, "level"@)
                },
        decreases results@.len() - i,
    {
        let ghost prev = detection_pairs(results@.subrange(0, i as int), rulenode@);
        let ghost base = out@.len();
        let rec = &results[i];
        let mut j: usize = 0;
        while j < rulenode.len()
            invariant
                i < results@.len(),
                rec == results@[i as int],
                j <= rulenode@.len(),
                base == prev.len(),
                prev == detection_pairs(results@.subrange(0, i as int), rulenode@),
                out@.len() == base + matching_rules(*rec, i as int, rulenode@.subrange(0, j as int)).len(),
                forall|k: int|
                    0 <= k < out@.len() ==> {
                        let p = #[trigger] (prev + matching_rules(*rec, i as int, rulenode@.subrange(0, j as int)))[k];
                        &&& 0 <= p.0 <= i
                        &&& 0 <= p.1 < rulenode@.len()
                        &&& out@[k].logdata == results@[p.0]
                        &&& out@[k].rulepath@ == rulenode@[p.1].rulepath@
                        &&& out@[k].ruletitle@ == text_entry(rulenode@[p.1].yaml, "title"@)
                        &&& out@[k].level@ == text_entry(rulenode@[p.1].yaml, "level"@)
                    },
            decreases rulenode@.len() - j,
        {
            let ghost m = matching_rules(*rec, i as int, rulenode@.subrange(0, j as int));
            assert(rulenode@.subrange(0, j + 1).drop_last() =~= rulenode@.subrange(0, j as int));
            let rule = &rulenode[j];
            if rule.select(rec) {
                let title = match rule.title() {
                    Some(t) => t,
                    None => String::new(),
                };
                let level = match rule.level() {
                    Some(l) => l,
                    None => String::new(),
                };
                assert(title@ == text_entry(rule.yaml, "title"@));
                assert(level@ == text_entry(rule.yaml, "level"@));
                let ghost before = out@;
                out.push(
                    DetectInfo {
                        rulepath: rule.rulepath.clone(),
                        ruletitle: title,
                        level,
                        logdata: rec.copy(),
                    },
                );
                assert(matching_rules(*rec, i as int, rulenode@.subrange(0, j + 1)) =~= m.push((i as int, j as int)));
                assert forall|k: int| 0 <= k < out@.len() implies {
                    let p = #[trigger] (prev + matching_rules(*rec, i as int, rulenode@.subrange(0, j + 1)))[k];
                    &&& 0 <= p.0 <= i
                    &&& 0 <= p.1 < rulenode@.len()
                    &&& out@[k].logdata == results@[p.0]
                    &&& out@[k].rulepath@ == rulenode@[p.1].rulepath@
                    &&& out@[k].ruletitle@ == text_entry(rulenode@[p.1].yaml, "title"@)
                    &&& out@[k].level@ == text_entry(rulenode@[p.1].yaml, "level"@)
                } by {
                    assert((prev + m.push((i as int, j as int))) =~= (prev + m).push((i as int, j as int)));
                    if k < before.len() {
                        assert(out@[k] == before[k]);
                        assert((prev + m.push((i as int, j as int)))[k] == (prev + m)[k]);
                    }
                }
            } else {
                assert(matching_rules(*rec, i as int, rulenode@.subrange(0, j + 1)) =~= m);
            }
            j = j + 1;
        }
        assert(rulenode@.subrange(0, rulenode@.len() as int) =~= rulenode@);
        assert(results@.subrange(0, i + 1).drop_last() =~= results@.subrange(0, i as int));
        assert(results@.subrange(0, i + 1).last() == results@[i as int]);
        i = i + 1;
    }
    assert(results@.subrange(0, results@.len() as int) =~= results@);
    out
}

} // verus!
