use vstd::prelude::*;
use crate::app_core::{are_default_rules, are_default_workflows, default_rule_targets};
use crate::crud::{find_from, find_spec, lemma_find_from, toggled, without_id, Keyed};
use crate::executors::get_field;
use crate::executors::field_from;
use crate::executors::{copy_outcome, move_outcome, or_seq, str_param};
use crate::paths::{file_name_spec, join_spec};
use crate::text::starts_with;
use crate::json::{fields_merged, fields_set, key_pos, lemma_key_pos, merged, Json};
use crate::rule::Rule;
use crate::rule_engine::{first_match_from, holds};
use crate::settings::{is_default_settings, one_of, settings_problem, Settings};
use crate::undo::{elapsed_secs, find_event, invalidate_spec, push_spec, undo_spec, UndoEntry, MAX_UNDO_ENTRIES, UNDO_TTL_SECS};
use crate::workflow::Workflow;

verus! {

// ---------------------------------------------------------------------------
// Undo
// ---------------------------------------------------------------------------

proof fn lemma_find_event(s: Seq<UndoEntry>, id: Seq<char>, k: int)
    requires
        0 <= k,
    ensures
        -1 <= find_event(s, id, k) < s.len(),
        find_event(s, id, k) >= 0 ==> k <= find_event(s, id, k) && s[find_event(s, id, k)].event_id@ == id,
        find_event(s, id, k) >= 0 ==> forall|j: int| k <= j < find_event(s, id, k) ==> #[trigger] s[j].event_id@ != id,
        find_event(s, id, k) < 0 ==> forall|j: int| k <= j < s.len() ==> #[trigger] s[j].event_id@ != id,
    decreases s.len() - k,
{
    if k < s.len() && s[k].event_id@ != id {
        lemma_find_event(s, id, k + 1);
    }
}

/// The undo stack never holds more than `MAX_UNDO_ENTRIES` entries.
pub proof fn law_undo_stack_bounded(s: Seq<UndoEntry>, e: UndoEntry)
    requires
        s.len() <= MAX_UNDO_ENTRIES,
    ensures
        push_spec(s, e).len() <= MAX_UNDO_ENTRIES,
        push_spec(s, e).last() == e,
{
}

/// An ingest just recorded can be undone while it is at most `UNDO_TTL_SECS` seconds
/// old: the undo gives its entry back and takes it off the stack.
pub proof fn law_undo_recent_ingest(s: Seq<UndoEntry>, e: UndoEntry, now: i64)
    requires
        find_event(s, e.event_id@, 0) == -1,
        elapsed_secs(e.created_at, now) <= UNDO_TTL_SECS,
    ensures
        undo_spec(push_spec(s, e), e.event_id@, now) == (push_spec(s, e).drop_last(), Some(e)),
{
    let t = push_spec(s, e);
    let id = e.event_id@;
    lemma_find_event(s, id, 0);
    lemma_find_event(t, id, 0);
    let p = find_event(t, id, 0);
    let last = t.len() - 1;
    assert(t[last] == e);
    if p != last {
        if p < 0 {
            assert(t[last].event_id@ != id);
        } else {
            if s.len() >= MAX_UNDO_ENTRIES {
                assert(t[p] == s[p + 1]);
            } else {
                assert(t[p] == s[p]);
            }
        }
    }
    assert(t.remove(last) =~= t.drop_last());
}

/// An undo that gives nothing back leaves the stack as it was.
pub proof fn law_refused_undo_keeps_stack(s: Seq<UndoEntry>, id: Seq<char>, now: i64)
    ensures
        undo_spec(s, id, now).1 is None ==> undo_spec(s, id, now).0 == s,
{
}

/// An undo past the window gives nothing back.
pub proof fn law_expired_undo_refused(s: Seq<UndoEntry>, id: Seq<char>, now: i64)
    requires
        find_event(s, id, 0) >= 0,
        elapsed_secs(s[find_event(s, id, 0)].created_at, now) > UNDO_TTL_SECS,
    ensures
        undo_spec(s, id, now) == (s, None::<UndoEntry>),
{
}

/// Once undone, an ingest cannot be undone again (where each ingest is on the stack once).
pub proof fn law_undo_only_once(s: Seq<UndoEntry>, id: Seq<char>, now: i64, later: i64)
    requires
        forall|i: int, j: int| 0 <= i < j < s.len() ==> #[trigger] s[i].event_id@ != #[trigger] s[j].event_id@,
        undo_spec(s, id, now).1 is Some,
    ensures
        undo_spec(undo_spec(s, id, now).0, id, later).1 is None,
{
    lemma_find_event(s, id, 0);
    let p = find_event(s, id, 0);
    let t = s.remove(p);
    lemma_find_event(t, id, 0);
    let q = find_event(t, id, 0);
    if q >= 0 {
        if q < p {
            assert(t[q] == s[q]);
        } else {
            assert(t[q] == s[q + 1]);
            assert(s[p].event_id@ != s[q + 1].event_id@);
        }
    }
}

/// An invalidated ingest cannot be undone.
pub proof fn law_invalidated_cannot_undo(s: Seq<UndoEntry>, id: Seq<char>, now: i64)
    ensures
        undo_spec(invalidate_spec(s, id), id, now).1 is None,
{
    let pred = |e: UndoEntry| e.event_id@ != id;
    let t = invalidate_spec(s, id);
    broadcast use vstd::seq_lib::group_filter_ensures;
    lemma_find_event(t, id, 0);
    let p = find_event(t, id, 0);
    if p >= 0 {
        assert(pred(t[p]));
    }
}

// ---------------------------------------------------------------------------
// Stored rules and workflows
// ---------------------------------------------------------------------------

/// A newly created item is the one found under its id.
pub proof fn law_created_item_found<T: Keyed>(items: Seq<T>, item: T)
    requires
        find_spec(items, item.key()) < 0,
    ensures
        find_spec(items.push(item), item.key()) == items.len(),
        items.push(item)[find_spec(items.push(item), item.key())] == item,
{
    let t = items.push(item);
    lemma_find_from(items, item.key(), 0);
    lemma_find_from(t, item.key(), 0);
    let p = find_spec(t, item.key());
    if p != items.len() {
        if p < 0 {
            assert(t[items.len() as int].key() != item.key());
        } else {
            assert(t[p] == items[p]);
        }
    }
}

/// Creating an item whose id is taken is refused: the id is found already.
pub proof fn law_create_twice_conflicts<T: Keyed>(items: Seq<T>, item: T)
    requires
        find_spec(items, item.key()) < 0,
    ensures
        find_spec(items.push(item), item.key()) >= 0,
{
    law_created_item_found(items, item);
}

/// After a removal, nothing is found under the removed id.
pub proof fn law_removed_id_not_found<T: Keyed>(items: Seq<T>, id: Seq<char>)
    ensures
        find_spec(without_id(items, id), id) == -1,
{
    let pred = |x: T| x.key() != id;
    let t = without_id(items, id);
    broadcast use vstd::seq_lib::group_filter_ensures;
    lemma_find_from(t, id, 0);
    let p = find_spec(t, id);
    if p >= 0 {
        assert(pred(t[p]));
    }
}

/// After an update under an id, the new item is the one found under it.
pub proof fn law_updated_item_found<T: Keyed>(items: Seq<T>, id: Seq<char>, item: T)
    requires
        find_spec(items, id) >= 0,
        item.key() == id,
    ensures
        find_spec(items.update(find_spec(items, id), item), id) == find_spec(items, id),
        items.update(find_spec(items, id), item)[find_spec(items, id)] == item,
{
    let p = find_spec(items, id);
    let t = items.update(p, item);
    lemma_find_from(items, id, 0);
    lemma_find_from(t, id, 0);
    let q = find_spec(t, id);
    if q != p {
        if q < 0 {
            assert(t[p].key() != id);
        } else if q < p {
            assert(t[q] == items[q]);
        } else {
            assert(t[p].key() == id);
        }
    }
}

/// Toggling a rule twice gives back the rule as it was.
pub proof fn law_toggle_twice(r: Rule)
    ensures
        toggled(toggled(r)) == r,
{
}

// ---------------------------------------------------------------------------
// Rules
// ---------------------------------------------------------------------------

/// The rule that decides is the first enabled rule whose condition holds: every
/// rule before it is disabled or does not hold.
pub proof fn law_first_match(rules: Seq<Rule>, ctx: Map<Seq<char>, Json>, k: int)
    requires
        0 <= k,
    ensures
        first_match_from(rules, ctx, k) >= 0 ==> ({
            let m = first_match_from(rules, ctx, k);
            &&& k <= m < rules.len()
            &&& rules[m].enabled
            &&& holds(rules[m].when, ctx)
            &&& forall|j: int| k <= j < m ==> !(#[trigger] rules[j].enabled && holds(rules[j].when, ctx))
        }),
        first_match_from(rules, ctx, k) < 0 ==> forall|j: int| k <= j < rules.len()
            ==> !(#[trigger] rules[j].enabled && holds(rules[j].when, ctx)),
    decreases rules.len() - k,
{
    if k < rules.len() && !(rules[k].enabled && holds(rules[k].when, ctx)) {
        law_first_match(rules, ctx, k + 1);
    }
}

/// Every built-in rule sends files to one of the built-in workflows.
pub proof fn law_default_rules_resolve(rules: Seq<Rule>, workflows: Seq<Workflow>, i: int)
    requires
        are_default_rules(rules),
        are_default_workflows(workflows),
        0 <= i < 3,
    ensures
        find_spec(workflows, rules[i].action().workflow_id@) == i,
{
    reveal_strlit("wf_move_to_photos");
    reveal_strlit("wf_move_to_videos");
    reveal_strlit("wf_move_to_documents");
    let t = default_rule_targets();
    assert(t[0][11] != t[1][11] && t[0][11] != t[2][11] && t[1][11] != t[2][11]);
    let id = rules[i].action().workflow_id@;
    assert(id == t[i]);
    assert(workflows[0].key() == t[0]);
    assert(workflows[1].key() == t[1]);
    assert(workflows[2].key() == t[2]);
    lemma_find_from(workflows, id, 0);
    let p = find_spec(workflows, id);
    if p != i {
        if p < 0 {
            assert(workflows[i].key() != id);
        } else {
            assert(workflows[p].key() == t[p]);
        }
    }
}

// ---------------------------------------------------------------------------
// Copy and move
// ---------------------------------------------------------------------------

/// A copy to a `~/` destination, with home directory `h` and a file that exists, goes
/// into `h` joined with the rest of the destination and keeps the file's name; without a
/// home directory it fails with "cannot resolve home dir".
pub proof fn law_copy_into_home(work: Seq<char>, params: Json, d: Seq<char>, h: Seq<char>)
    requires
        str_param(params, "dest"@) == Some(d),
        starts_with(d, "~/"@),
    ensures
        copy_outcome(work, params, Some(h), true) == Ok::<(Seq<char>, Seq<char>, Seq<char>), Seq<char>>((
            work,
            join_spec(h, d.subrange(2, d.len() as int)),
            join_spec(join_spec(h, d.subrange(2, d.len() as int)), or_seq(file_name_spec(work), Seq::empty())),
        )),
        copy_outcome(work, params, None, true) == Err::<(Seq<char>, Seq<char>, Seq<char>), Seq<char>>(
            "cannot resolve home dir"@,
        ),
{
    reveal_strlit("~/");
}

/// A move to a `~/` destination, with home directory `h` and a file that exists, goes
/// into `h` joined with the rest of the destination and keeps the file's name; without a
/// home directory the destination is taken as written.
pub proof fn law_move_into_home(work: Seq<char>, params: Json, d: Seq<char>, h: Seq<char>)
    requires
        str_param(params, "dest"@) == Some(d),
        starts_with(d, "~/"@),
    ensures
        move_outcome(work, params, Some(h), true) == Ok::<(Seq<char>, Seq<char>, Seq<char>), Seq<char>>((
            work,
            join_spec(h, d.subrange(2, d.len() as int)),
            join_spec(join_spec(h, d.subrange(2, d.len() as int)), or_seq(file_name_spec(work), Seq::empty())),
        )),
        move_outcome(work, params, None, true) == Ok::<(Seq<char>, Seq<char>, Seq<char>), Seq<char>>((
            work,
            d,
            join_spec(d, or_seq(file_name_spec(work), Seq::empty())),
        )),
{
    reveal_strlit("~/");
}

// ---------------------------------------------------------------------------
// Settings
// ---------------------------------------------------------------------------

/// The default settings pass the checks an update makes.
pub proof fn law_default_settings_valid(s: Settings)
    requires
        is_default_settings(s),
    ensures
        settings_problem(s) is None,
{
    let themes = seq!["system"@, "light"@, "dark"@];
    assert(themes[2] == s.theme@);
    let conflicts = seq!["append_timestamp"@, "rename"@, "overwrite"@, "skip"@];
    assert(conflicts[0] == s.conflict_resolution@);
    let policies = seq!["first_match"@, "first_wins"@, "all_matches"@, "all_matching"@];
    assert(policies[0] == s.match_policy@);
    let levels = seq!["trace"@, "debug"@, "info"@, "warn"@, "error"@];
    assert(levels[2] == s.log_level@);
}

/// Settings pass the checks an update makes exactly when every checked field is in its
/// range: a positive undo window, an undo history of 1 to 50 entries, a concurrency of
/// 1 to 8, an inbox limit of 1 to 1024 GB, a positive largest file size, a theme of
/// system, light or dark, a known conflict resolution, match policy and log level.
pub proof fn law_settings_ranges(s: Settings)
    ensures
        settings_problem(s) is None <==> {
            &&& 1 <= s.undo_window_seconds
            &&& 1 <= s.undo_history_depth <= 50
            &&& 1 <= s.concurrency <= 8
            &&& 1 <= s.inbox_size_limit_gb <= 1024
            &&& 1 <= s.max_file_size_mb
            &&& (s.theme@ == "system"@ || s.theme@ == "light"@ || s.theme@ == "dark"@)
            &&& (s.conflict_resolution@ == "append_timestamp"@ || s.conflict_resolution@ == "rename"@
                || s.conflict_resolution@ == "overwrite"@ || s.conflict_resolution@ == "skip"@)
            &&& (s.match_policy@ == "first_match"@ || s.match_policy@ == "first_wins"@
                || s.match_policy@ == "all_matches"@ || s.match_policy@ == "all_matching"@)
            &&& (s.log_level@ == "trace"@ || s.log_level@ == "debug"@ || s.log_level@ == "info"@
                || s.log_level@ == "warn"@ || s.log_level@ == "error"@)
        },
{
    let themes = seq!["system"@, "light"@, "dark"@];
    let conflicts = seq!["append_timestamp"@, "rename"@, "overwrite"@, "skip"@];
    let policies = seq!["first_match"@, "first_wins"@, "all_matches"@, "all_matching"@];
    let levels = seq!["trace"@, "debug"@, "info"@, "warn"@, "error"@];
    assert(one_of(s.theme@, themes) <==> (s.theme@ == "system"@ || s.theme@ == "light"@ || s.theme@ == "dark"@)) by {
        if s.theme@ == "system"@ { assert(themes[0] == s.theme@); }
        if s.theme@ == "light"@ { assert(themes[1] == s.theme@); }
        if s.theme@ == "dark"@ { assert(themes[2] == s.theme@); }
    }
    assert(one_of(s.conflict_resolution@, conflicts) <==> (s.conflict_resolution@ == "append_timestamp"@
        || s.conflict_resolution@ == "rename"@ || s.conflict_resolution@ == "overwrite"@
        || s.conflict_resolution@ == "skip"@)) by {
        if s.conflict_resolution@ == "append_timestamp"@ { assert(conflicts[0] == s.conflict_resolution@); }
        if s.conflict_resolution@ == "rename"@ { assert(conflicts[1] == s.conflict_resolution@); }
        if s.conflict_resolution@ == "overwrite"@ { assert(conflicts[2] == s.conflict_resolution@); }
        if s.conflict_resolution@ == "skip"@ { assert(conflicts[3] == s.conflict_resolution@); }
    }
    assert(one_of(s.match_policy@, policies) <==> (s.match_policy@ == "first_match"@
        || s.match_policy@ == "first_wins"@ || s.match_policy@ == "all_matches"@
        || s.match_policy@ == "all_matching"@)) by {
        if s.match_policy@ == "first_match"@ { assert(policies[0] == s.match_policy@); }
        if s.match_policy@ == "first_wins"@ { assert(policies[1] == s.match_policy@); }
        if s.match_policy@ == "all_matches"@ { assert(policies[2] == s.match_policy@); }
        if s.match_policy@ == "all_matching"@ { assert(policies[3] == s.match_policy@); }
    }
    assert(one_of(s.log_level@, levels) <==> (s.log_level@ == "trace"@ || s.log_level@ == "debug"@
        || s.log_level@ == "info"@ || s.log_level@ == "warn"@ || s.log_level@ == "error"@)) by {
        if s.log_level@ == "trace"@ { assert(levels[0] == s.log_level@); }
        if s.log_level@ == "debug"@ { assert(levels[1] == s.log_level@); }
        if s.log_level@ == "info"@ { assert(levels[2] == s.log_level@); }
        if s.log_level@ == "warn"@ { assert(levels[3] == s.log_level@); }
        if s.log_level@ == "error"@ { assert(levels[4] == s.log_level@); }
    }
}

/// Merging the fields of an empty object changes nothing.
pub proof fn law_merge_nothing(cur: Json)
    ensures
        merged(cur, Json::Object(Seq::empty())) == cur,
{
}

/// After a merge, a field given in the update holds the given value.
pub proof fn law_merge_sets_field(cur: Seq<(Seq<char>, Json)>, key: Seq<char>, v: Json)
    ensures
        get_field(merged(Json::Object(cur), Json::Object(seq![(key, v)])), key) == Some(v),
{
    let inc = seq![(key, v)];
    assert(inc.drop_last() =~= Seq::<(Seq<char>, Json)>::empty());
    let f = fields_set(cur, key, v);
    assert(fields_merged(cur, inc.drop_last()) == cur);
    assert(fields_merged(cur, inc) == f);
    lemma_key_pos(cur, key, 0);
    lemma_key_pos(f, key, 0);
    lemma_field_from_first(f, key, 0);
    let p = key_pos(cur, key, 0);
    let at = if p >= 0 { p } else { cur.len() as int };
    assert(f[at] == (key, v));
    let q = key_pos(f, key, 0);
    if q != at {
        if q < 0 {
            assert(f[at].0 != key);
        } else if q < at {
            assert(f[q] == cur[q]);
        } else {
            assert(f[at].0 == key);
        }
    }
}

proof fn lemma_field_from_first(f: Seq<(Seq<char>, Json)>, key: Seq<char>, k: int)
    requires
        0 <= k,
    ensures
        field_from(f, key, k) == (if key_pos(f, key, k) >= 0 {
            Some(f[key_pos(f, key, k)].1)
        } else {
            None::<Json>
        }),
    decreases f.len() - k,
{
    if k < f.len() && f[k].0 != key {
        lemma_field_from_first(f, key, k + 1);
    }
}

} // verus!
