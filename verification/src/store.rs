//! The deduplicating, sorted result store.
//!
//! A store holds at most one entry per group id, ordered by balance
//! descending with ties broken by ascending id.  It is serialized to a flat
//! line-oriented text, one line per entry, in the fixed grammar
//! `Group <id> has <balance> robux.`; lines that do not match the grammar are
//! dropped on load.

use crate::text::{
    all_digits, append_str, chars_to_string, dec_chars, digit_run_end, digits_val, is_digit,
    lemma_dec_chars_digits, lemma_dec_chars_val, lemma_digit_run_end, lemma_digit_run_stops,
    match_at, parse_u32_range, push_dec_chars, scan_digits, str_chars,
};
use crate::GroupId;
use vstd::prelude::*;

verus! {

/// One persisted hit: a group id and its recorded balance.
#[derive(Clone, Copy, Debug, PartialEq, Eq, Structural)]
pub struct StoreEntry {
    pub id: GroupId,
    pub balance: u32,
}

/// Store order: balance descending, ties by ascending id.
pub open spec fn entry_lt(a: StoreEntry, b: StoreEntry) -> bool {
    a.balance > b.balance || (a.balance == b.balance && a.id < b.id)
}

pub open spec fn sorted_entries(s: Seq<StoreEntry>) -> bool {
    forall|i: int, j: int| 0 <= i < j < s.len() ==> entry_lt(#[trigger] s[i], #[trigger] s[j])
}

pub open spec fn distinct_ids(s: Seq<StoreEntry>) -> bool {
    forall|i: int, j: int| 0 <= i < j < s.len() ==> (#[trigger] s[i]).id != (#[trigger] s[j]).id
}

pub open spec fn has_id(s: Seq<StoreEntry>, id: GroupId) -> bool {
    exists|i: int| 0 <= i < s.len() && (#[trigger] s[i]).id == id
}

// ---------------------------------------------------------------------------
// The line grammar.
// ---------------------------------------------------------------------------

/// The stored line for one entry.
pub open spec fn spec_line(id: GroupId, balance: u32) -> Seq<char> {
    "Group "@ + dec_chars(id as nat) + " has "@ + dec_chars(balance as nat) + " robux."@
}

/// Parse one line under the fixed grammar; `None` for anything that is not
/// `Group <digits> has <digits> robux.` with both numbers fitting in `u32`.
pub open spec fn spec_parse_line(line: Seq<char>) -> Option<(u32, u32)> {
    let p1 = "Group "@;
    let p2 = " has "@;
    let p3 = " robux."@;
    if line.len() < p1.len() || line.subrange(0, p1.len() as int) != p1 {
        None
    } else {
        let i0 = p1.len() as int;
        let i1 = digit_run_end(line, i0);
        if i1 == i0 {
            None
        } else if i1 + p2.len() > line.len() || line.subrange(i1, i1 + p2.len()) != p2 {
            None
        } else {
            let j0 = i1 + p2.len();
            let j1 = digit_run_end(line, j0);
            if j1 == j0 {
                None
            } else if j1 + p3.len() != line.len() || line.subrange(j1, line.len() as int) != p3 {
                None
            } else {
                let idv = digits_val(line.subrange(i0, i1));
                let bv = digits_val(line.subrange(j0, j1));
                if idv <= u32::MAX && bv <= u32::MAX {
                    Some((idv as u32, bv as u32))
                } else {
                    None
                }
            }
        }
    }
}

/// The stored line for one entry, as an executable string.
pub fn robux_format_str(gid: GroupId, robux: u32) -> (r: String)
    ensures
        r@ == spec_line(gid, robux),
{
    let mut v: Vec<char> = Vec::new();
    append_str(&mut v, "Group ");
    push_dec_chars(&mut v, gid);
    append_str(&mut v, " has ");
    push_dec_chars(&mut v, robux);
    append_str(&mut v, " robux.");
    proof {
        assert(v@ =~= spec_line(gid, robux));
    }
    chars_to_string(&v)
}

/// Parses one line (without its newline) under the store grammar.
pub fn parse_line(v: &Vec<char>) -> (r: Option<(u32, u32)>)
    ensures
        r == spec_parse_line(v@),
{
    let p1 = str_chars("Group ");
    let i0 = p1.len();
    if !match_at(v, 0, "Group ") {
        return None;
    }
    proof {
        assert(v@.subrange(0, i0 as int) =~= v@.subrange(0 as int, 0 + "Group "@.len() as int));
    }
    let i1 = scan_digits(v, i0);
    proof {
        lemma_digit_run_end(v@, i0 as int);
    }
    if i1 == i0 {
        return None;
    }
    let p2 = str_chars(" has ");
    if !match_at(v, i1, " has ") {
        return None;
    }
    let vlen = v.len();
    assert(i1 + p2@.len() <= vlen);
    let j0 = i1 + p2.len();
    let j1 = scan_digits(v, j0);
    proof {
        lemma_digit_run_end(v@, j0 as int);
    }
    if j1 == j0 {
        return None;
    }
    let p3 = str_chars(" robux.");
    if !match_at(v, j1, " robux.") {
        return None;
    }
    assert(j1 + p3@.len() <= vlen);
    if j1 + p3.len() != v.len() {
        return None;
    }
    proof {
        assert(v@.subrange(j1 as int, v@.len() as int) =~= v@.subrange(
            j1 as int,
            j1 as int + " robux."@.len() as int,
        ));
        lemma_digit_run_end(v@, i0 as int);
        assert(all_digits(v@.subrange(i0 as int, i1 as int))) by {
            assert(forall|k: int|
                0 <= k < i1 - i0 ==> is_digit(
                    #[trigger] v@.subrange(i0 as int, i1 as int)[k],
                ));
        }
        lemma_digit_run_end(v@, j0 as int);
        assert(all_digits(v@.subrange(j0 as int, j1 as int))) by {
            assert(forall|k: int|
                0 <= k < j1 - j0 ==> is_digit(
                    #[trigger] v@.subrange(j0 as int, j1 as int)[k],
                ));
        }
    }
    let idv = parse_u32_range(v, i0, i1);
    let bal = parse_u32_range(v, j0, j1);
    match (idv, bal) {
        (Some(a), Some(b)) => Some((a, b)),
        _ => None,
    }
}

// ---------------------------------------------------------------------------
// The store model: canonical entry sequences.
// ---------------------------------------------------------------------------

/// `s` without any entry whose id is `id`.
pub open spec fn spec_remove_id(s: Seq<StoreEntry>, id: GroupId) -> Seq<StoreEntry>
    decreases s.len(),
{
    if s.len() == 0 {
        Seq::empty()
    } else if s.last().id == id {
        spec_remove_id(s.drop_last(), id)
    } else {
        spec_remove_id(s.drop_last(), id).push(s.last())
    }
}

/// `s` with `e` inserted at its ordered position.
pub open spec fn spec_insert_sorted(s: Seq<StoreEntry>, e: StoreEntry) -> Seq<StoreEntry>
    decreases s.len(),
{
    if s.len() == 0 {
        seq![e]
    } else if !entry_lt(e, s.last()) {
        s.push(e)
    } else {
        spec_insert_sorted(s.drop_last(), e).push(s.last())
    }
}

/// What one `record` call does to the stored sequence: the old entry for the
/// id, if any, goes away, and the new one takes its ordered position.
pub open spec fn spec_record(s: Seq<StoreEntry>, id: GroupId, balance: u32) -> Seq<StoreEntry> {
    spec_insert_sorted(spec_remove_id(s, id), StoreEntry { id, balance })
}

/// The id-to-balance mapping a sequence of entries stands for; a later entry
/// overwrites an earlier one with the same id.
pub open spec fn entries_map(s: Seq<StoreEntry>) -> Map<GroupId, u32>
    decreases s.len(),
{
    if s.len() == 0 {
        Map::empty()
    } else {
        entries_map(s.drop_last()).insert(s.last().id, s.last().balance)
    }
}

pub proof fn lemma_sorted_drop_last(s: Seq<StoreEntry>)
    requires
        sorted_entries(s),
        distinct_ids(s),
        s.len() > 0,
    ensures
        sorted_entries(s.drop_last()),
        distinct_ids(s.drop_last()),
{
    let s0 = s.drop_last();
    assert forall|i: int, j: int| 0 <= i < j < s0.len() implies entry_lt(
        #[trigger] s0[i],
        #[trigger] s0[j],
    ) && s0[i].id != s0[j].id by {
        assert(s0[i] == s[i]);
        assert(s0[j] == s[j]);
    }
}

pub proof fn lemma_remove_id_props(s: Seq<StoreEntry>, id: GroupId)
    ensures
        spec_remove_id(s, id).len() <= s.len(),
        forall|j: int|
            0 <= j < spec_remove_id(s, id).len() ==> (#[trigger] spec_remove_id(s, id)[j]).id
                != id,
        forall|j: int|
            0 <= j < spec_remove_id(s, id).len() ==> s.contains(#[trigger] spec_remove_id(s, id)[j]),
    decreases s.len(),
{
    if s.len() > 0 {
        let s0 = s.drop_last();
        let r0 = spec_remove_id(s0, id);
        lemma_remove_id_props(s0, id);
        assert forall|j: int| 0 <= j < r0.len() implies s.contains(r0[j]) by {
            assert(s0.contains(r0[j]));
            let k = choose|k: int| 0 <= k < s0.len() && s0[k] == r0[j];
            assert(s[k] == r0[j]);
        }
        if s.last().id != id {
            let r = spec_remove_id(s, id);
            assert(r == r0.push(s.last()));
            assert(s.contains(s.last())) by {
                assert(s[s.len() - 1] == s.last());
            }
            assert forall|j: int| 0 <= j < r.len() implies s.contains(#[trigger] r[j]) by {
                if j < r0.len() {
                    assert(r[j] == r0[j]);
                } else {
                    assert(r[j] == s.last());
                }
            }
        }
    }
}

pub proof fn lemma_remove_id_sorted(s: Seq<StoreEntry>, id: GroupId)
    requires
        sorted_entries(s),
        distinct_ids(s),
    ensures
        sorted_entries(spec_remove_id(s, id)),
        distinct_ids(spec_remove_id(s, id)),
    decreases s.len(),
{
    if s.len() > 0 {
        let s0 = s.drop_last();
        let r0 = spec_remove_id(s0, id);
        lemma_sorted_drop_last(s);
        lemma_remove_id_sorted(s0, id);
        lemma_remove_id_props(s0, id);
        if s.last().id != id {
            let r = spec_remove_id(s, id);
            assert(r == r0.push(s.last()));
            assert forall|i: int, j: int| 0 <= i < j < r.len() implies entry_lt(
                #[trigger] r[i],
                #[trigger] r[j],
            ) && r[i].id != r[j].id by {
                if j < r0.len() {
                    assert(r[i] == r0[i]);
                    assert(r[j] == r0[j]);
                } else {
                    assert(r[j] == s.last());
                    assert(r[i] == r0[i]);
                    assert(s0.contains(r0[i]));
                    let k = choose|k: int| 0 <= k < s0.len() && s0[k] == r0[i];
                    assert(s[k] == r0[i]);
                    assert(entry_lt(s[k], s[s.len() - 1]));
                    assert(s[k].id != s[s.len() - 1].id);
                }
            }
        }
    }
}

/// Removing an id that does not occur leaves the sequence unchanged.
pub proof fn lemma_remove_id_absent(s: Seq<StoreEntry>, id: GroupId)
    requires
        forall|j: int| 0 <= j < s.len() ==> (#[trigger] s[j]).id != id,
    ensures
        spec_remove_id(s, id) == s,
    decreases s.len(),
{
    if s.len() > 0 {
        let s0 = s.drop_last();
        assert forall|j: int| 0 <= j < s0.len() implies (#[trigger] s0[j]).id != id by {
            assert(s0[j] == s[j]);
        }
        lemma_remove_id_absent(s0, id);
        assert(s.last().id != id) by {
            assert(s[s.len() - 1].id != id);
        }
        assert(spec_remove_id(s, id) =~= s);
    }
}

pub proof fn lemma_insert_sorted_props(s: Seq<StoreEntry>, e: StoreEntry)
    requires
        sorted_entries(s),
        distinct_ids(s),
        forall|j: int| 0 <= j < s.len() ==> (#[trigger] s[j]).id != e.id,
    ensures
        spec_insert_sorted(s, e).len() == s.len() + 1,
        sorted_entries(spec_insert_sorted(s, e)),
        distinct_ids(spec_insert_sorted(s, e)),
        spec_insert_sorted(s, e).contains(e),
        forall|j: int|
            0 <= j < spec_insert_sorted(s, e).len() ==> (#[trigger] spec_insert_sorted(s, e)[j])
                == e || s.contains(spec_insert_sorted(s, e)[j]),
    decreases s.len(),
{
    let r = spec_insert_sorted(s, e);
    if s.len() == 0 {
        assert(r[0] == e);
    } else if !entry_lt(e, s.last()) {
        // e goes after the last entry; the last entry precedes e in the order
        // because their ids differ.
        assert(r == s.push(e));
        assert(s.last().id != e.id) by {
            assert(s[s.len() - 1].id != e.id);
        }
        assert(entry_lt(s.last(), e));
        assert forall|i: int, j: int| 0 <= i < j < r.len() implies entry_lt(
            #[trigger] r[i],
            #[trigger] r[j],
        ) && r[i].id != r[j].id by {
            if j < s.len() {
                assert(r[i] == s[i]);
                assert(r[j] == s[j]);
            } else {
                assert(r[j] == e);
                assert(r[i] == s[i]);
                if i < s.len() - 1 {
                    assert(entry_lt(s[i], s[s.len() - 1]));
                } else {
                    assert(s[i] == s.last());
                }
            }
        }
        assert(r.contains(e)) by {
            assert(r[r.len() - 1] == e);
        }
        assert forall|j: int| 0 <= j < r.len() implies (#[trigger] r[j]) == e || s.contains(
            r[j],
        ) by {
            if j < s.len() {
                assert(r[j] == s[j]);
            }
        }
    } else {
        let s0 = s.drop_last();
        let r0 = spec_insert_sorted(s0, e);
        lemma_sorted_drop_last(s);
        assert forall|j: int| 0 <= j < s0.len() implies (#[trigger] s0[j]).id != e.id by {
            assert(s0[j] == s[j]);
        }
        lemma_insert_sorted_props(s0, e);
        assert(r == r0.push(s.last()));
        assert forall|x: StoreEntry| s0.contains(x) implies s.contains(x) by {
            let k = choose|k: int| 0 <= k < s0.len() && s0[k] == x;
            assert(s[k] == x);
        }
        assert forall|i: int, j: int| 0 <= i < j < r.len() implies entry_lt(
            #[trigger] r[i],
            #[trigger] r[j],
        ) && r[i].id != r[j].id by {
            if j < r0.len() {
                assert(r[i] == r0[i]);
                assert(r[j] == r0[j]);
            } else {
                assert(r[j] == s.last());
                assert(r[i] == r0[i]);
                if r0[i] == e {
                    // e precedes the old last entry.
                    assert(entry_lt(e, s.last()));
                    assert(s[s.len() - 1].id != e.id);
                } else {
                    assert(s0.contains(r0[i]));
                    let k = choose|k: int| 0 <= k < s0.len() && s0[k] == r0[i];
                    assert(s[k] == r0[i]);
                    assert(entry_lt(s[k], s[s.len() - 1]));
                    assert(s[k].id != s[s.len() - 1].id);
                }
            }
        }
        assert(r.contains(e)) by {
            assert(r0.contains(e));
            let k = choose|k: int| 0 <= k < r0.len() && r0[k] == e;
            assert(r[k] == e);
        }
        assert forall|j: int| 0 <= j < r.len() implies (#[trigger] r[j]) == e || s.contains(
            r[j],
        ) by {
            if j < r0.len() {
                assert(r[j] == r0[j]);
            } else {
                assert(r[j] == s.last());
                assert(s[s.len() - 1] == s.last());
            }
        }
    }
}

pub proof fn lemma_entries_map_remove(s: Seq<StoreEntry>, id: GroupId)
    ensures
        entries_map(spec_remove_id(s, id)) == entries_map(s).remove(id),
    decreases s.len(),
{
    if s.len() == 0 {
        assert(entries_map(spec_remove_id(s, id)) =~= entries_map(s).remove(id));
    } else {
        let s0 = s.drop_last();
        lemma_entries_map_remove(s0, id);
        if s.last().id == id {
            assert(entries_map(s0).insert(id, s.last().balance).remove(id) =~= entries_map(
                s0,
            ).remove(id));
        } else {
            let r0 = spec_remove_id(s0, id);
            assert(r0.push(s.last()).drop_last() =~= r0);
            assert(entries_map(r0.push(s.last())) == entries_map(r0).insert(
                s.last().id,
                s.last().balance,
            ));
            assert(entries_map(s0).remove(id).insert(s.last().id, s.last().balance)
                =~= entries_map(s0).insert(s.last().id, s.last().balance).remove(id));
        }
    }
}

pub proof fn lemma_entries_map_insert(s: Seq<StoreEntry>, e: StoreEntry)
    requires
        forall|j: int| 0 <= j < s.len() ==> (#[trigger] s[j]).id != e.id,
    ensures
        entries_map(spec_insert_sorted(s, e)) == entries_map(s).insert(e.id, e.balance),
    decreases s.len(),
{
    let r = spec_insert_sorted(s, e);
    if s.len() == 0 {
        assert(seq![e].drop_last() =~= Seq::<StoreEntry>::empty());
        assert(seq![e].last() == e);
        assert(entries_map(Seq::<StoreEntry>::empty()) == Map::<GroupId, u32>::empty());
        assert(entries_map(r) =~= entries_map(s).insert(e.id, e.balance));
    } else if !entry_lt(e, s.last()) {
        assert(s.push(e).drop_last() =~= s);
        assert(entries_map(r) == entries_map(s).insert(e.id, e.balance));
    } else {
        let s0 = s.drop_last();
        assert forall|j: int| 0 <= j < s0.len() implies (#[trigger] s0[j]).id != e.id by {
            assert(s0[j] == s[j]);
        }
        lemma_entries_map_insert(s0, e);
        let r0 = spec_insert_sorted(s0, e);
        assert(r0.push(s.last()).drop_last() =~= r0);
        assert(entries_map(r) == entries_map(r0).insert(s.last().id, s.last().balance));
        assert(s[s.len() - 1].id != e.id);
        assert(entries_map(s0).insert(e.id, e.balance).insert(s.last().id, s.last().balance)
            =~= entries_map(s0).insert(s.last().id, s.last().balance).insert(e.id, e.balance));
    }
}

/// One record call turns the stored mapping into the old mapping with the
/// given pair inserted, overwriting any earlier balance for the id.
pub proof fn lemma_record_map(s: Seq<StoreEntry>, id: GroupId, balance: u32)
    ensures
        entries_map(spec_record(s, id, balance)) == entries_map(s).insert(id, balance),
{
    lemma_remove_id_props(s, id);
    lemma_entries_map_remove(s, id);
    lemma_entries_map_insert(spec_remove_id(s, id), StoreEntry { id, balance });
    assert(entries_map(s).remove(id).insert(id, balance) =~= entries_map(s).insert(id, balance));
}

pub proof fn lemma_record_wf(s: Seq<StoreEntry>, id: GroupId, balance: u32)
    requires
        sorted_entries(s),
        distinct_ids(s),
    ensures
        sorted_entries(spec_record(s, id, balance)),
        distinct_ids(spec_record(s, id, balance)),
{
    lemma_remove_id_sorted(s, id);
    lemma_remove_id_props(s, id);
    lemma_insert_sorted_props(spec_remove_id(s, id), StoreEntry { id, balance });
}

pub proof fn lemma_remove_after_insert(t: Seq<StoreEntry>, e: StoreEntry)
    requires
        forall|j: int| 0 <= j < t.len() ==> (#[trigger] t[j]).id != e.id,
    ensures
        spec_remove_id(spec_insert_sorted(t, e), e.id) == t,
    decreases t.len(),
{
    let r = spec_insert_sorted(t, e);
    if t.len() == 0 {
        assert(seq![e].last() == e);
        assert(seq![e].drop_last() =~= Seq::<StoreEntry>::empty());
        assert(spec_remove_id(Seq::<StoreEntry>::empty(), e.id) =~= Seq::<StoreEntry>::empty());
        assert(spec_remove_id(r, e.id) =~= t);
    } else if !entry_lt(e, t.last()) {
        assert(r == t.push(e));
        assert(r.drop_last() =~= t);
        lemma_remove_id_absent(t, e.id);
    } else {
        let t0 = t.drop_last();
        assert forall|j: int| 0 <= j < t0.len() implies (#[trigger] t0[j]).id != e.id by {
            assert(t0[j] == t[j]);
        }
        lemma_remove_after_insert(t0, e);
        assert(t[t.len() - 1].id != e.id);
        assert(r == spec_insert_sorted(t0, e).push(t.last()));
        assert(r.drop_last() =~= spec_insert_sorted(t0, e));
        assert(r.last() == t.last());
        assert(spec_remove_id(r, e.id) == spec_remove_id(r.drop_last(), e.id).push(t.last()));
        assert(spec_remove_id(r.drop_last(), e.id) == t0);
        assert(t0.push(t.last()) =~= t);
    }
}

/// Recording the same id and balance twice leaves exactly what one record
/// leaves: the store file after the second call is identical to the file
/// after the first.
pub proof fn lemma_record_idempotent(s: Seq<StoreEntry>, id: GroupId, balance: u32)
    ensures
        spec_record(spec_record(s, id, balance), id, balance) == spec_record(s, id, balance),
{
    let t = spec_remove_id(s, id);
    let e = StoreEntry { id, balance };
    lemma_remove_id_props(s, id);
    lemma_remove_after_insert(t, e);
}

/// Recording an entry that belongs, by order and by id, at the very end of a
/// well-formed sequence appends it.
pub proof fn lemma_record_extends(s: Seq<StoreEntry>, x: StoreEntry)
    requires
        sorted_entries(s.push(x)),
        distinct_ids(s.push(x)),
    ensures
        spec_record(s, x.id, x.balance) == s.push(x),
{
    let p = s.push(x);
    assert forall|j: int| 0 <= j < s.len() implies (#[trigger] s[j]).id != x.id by {
        assert(p[j] == s[j]);
        assert(p[s.len() as int] == x);
        assert(p[j].id != p[s.len() as int].id);
    }
    lemma_remove_id_absent(s, x.id);
    assert(StoreEntry { id: x.id, balance: x.balance } == x);
    if s.len() == 0 {
        assert(spec_insert_sorted(s, x) =~= s.push(x));
    } else {
        assert(p[s.len() - 1] == s.last());
        assert(p[s.len() as int] == x);
        assert(entry_lt(s.last(), x));
        assert(!entry_lt(x, s.last()));
        assert(spec_insert_sorted(s, x) == s.push(x));
    }
}

/// In a sequence with distinct ids, the mapping and the entries list agree:
/// each entry is the mapping's pair for its id, and every mapped id has an
/// entry.
pub proof fn lemma_entries_map_index(s: Seq<StoreEntry>)
    requires
        distinct_ids(s),
    ensures
        forall|j: int|
            0 <= j < s.len() ==> entries_map(s).contains_key((#[trigger] s[j]).id) && entries_map(
                s,
            )[s[j].id] == s[j].balance,
        forall|id: GroupId| #[trigger]
            entries_map(s).contains_key(id) ==> has_id(s, id),
    decreases s.len(),
{
    if s.len() > 0 {
        let s0 = s.drop_last();
        assert forall|i: int, j: int| 0 <= i < j < s0.len() implies (#[trigger] s0[i]).id != (
        #[trigger] s0[j]).id by {
            assert(s0[i] == s[i]);
            assert(s0[j] == s[j]);
        }
        lemma_entries_map_index(s0);
        assert forall|j: int| 0 <= j < s.len() implies entries_map(s).contains_key(
            (#[trigger] s[j]).id,
        ) && entries_map(s)[s[j].id] == s[j].balance by {
            if j < s.len() - 1 {
                assert(s0[j] == s[j]);
                assert(s[j].id != s[s.len() - 1].id);
            } else {
                assert(s[j] == s.last());
            }
        }
        assert forall|id: GroupId| #[trigger]
            entries_map(s).contains_key(id) implies has_id(s, id) by {
            if id == s.last().id {
                assert(s[s.len() - 1].id == id);
            } else {
                assert(entries_map(s0).contains_key(id));
                let k = choose|k: int| 0 <= k < s0.len() && s0[k].id == id;
                assert(s[k].id == id);
            }
        }
    }
}

// ---------------------------------------------------------------------------
// Sequences of record calls.
// ---------------------------------------------------------------------------

/// The store contents after a whole sequence of record calls, oldest first,
/// starting from an empty store.
pub open spec fn apply_records(ops: Seq<StoreEntry>) -> Seq<StoreEntry>
    decreases ops.len(),
{
    if ops.len() == 0 {
        Seq::empty()
    } else {
        spec_record(apply_records(ops.drop_last()), ops.last().id, ops.last().balance)
    }
}

/// The balance most recently recorded for `id`, if any.
pub open spec fn last_recorded(ops: Seq<StoreEntry>, id: GroupId) -> Option<u32>
    decreases ops.len(),
{
    if ops.len() == 0 {
        None
    } else if ops.last().id == id {
        Some(ops.last().balance)
    } else {
        last_recorded(ops.drop_last(), id)
    }
}

/// After any sequence of record calls, the store holds exactly one entry per
/// distinct recorded id, each bearing the most recently recorded balance, in
/// balance-descending order with ties broken by ascending id.
pub proof fn lemma_store_after_records(ops: Seq<StoreEntry>)
    ensures
        sorted_entries(apply_records(ops)),
        distinct_ids(apply_records(ops)),
        forall|id: GroupId| #[trigger]
            entries_map(apply_records(ops)).contains_key(id) <==> last_recorded(ops, id) is Some,
        forall|id: GroupId|
            #![trigger last_recorded(ops, id)]
            last_recorded(ops, id) is Some ==> entries_map(apply_records(ops))[id]
                == last_recorded(ops, id)->0,
    decreases ops.len(),
{
    if ops.len() > 0 {
        let prev = apply_records(ops.drop_last());
        let cur = apply_records(ops);
        let id0 = ops.last().id;
        let b0 = ops.last().balance;
        lemma_store_after_records(ops.drop_last());
        lemma_record_wf(prev, id0, b0);
        lemma_record_map(prev, id0, b0);
        assert(entries_map(cur) == entries_map(prev).insert(id0, b0));
        assert forall|id: GroupId| #[trigger]
            entries_map(cur).contains_key(id) <==> last_recorded(ops, id) is Some by {
            if id != id0 {
                assert(entries_map(cur).contains_key(id) == entries_map(prev).contains_key(id));
                assert(last_recorded(ops, id) == last_recorded(ops.drop_last(), id));
            }
        }
        assert forall|id: GroupId|
            #![trigger last_recorded(ops, id)]
            last_recorded(ops, id) is Some implies entries_map(cur)[id] == last_recorded(
            ops,
            id,
        )->0 by {
            if id != id0 {
                assert(entries_map(cur)[id] == entries_map(prev)[id]);
                assert(last_recorded(ops, id) == last_recorded(ops.drop_last(), id));
            }
        }
    }
}

/// Helper for the ordered-insert characterization: inserting at the first
/// position whose entry the new one precedes is what `spec_insert_sorted`
/// does.
pub proof fn lemma_insert_sorted_at(s: Seq<StoreEntry>, e: StoreEntry, p: int)
    requires
        sorted_entries(s),
        0 <= p <= s.len(),
        forall|k: int| 0 <= k < p ==> !entry_lt(e, #[trigger] s[k]),
        p < s.len() ==> entry_lt(e, s[p]),
    ensures
        spec_insert_sorted(s, e) == s.insert(p, e),
    decreases s.len(),
{
    if s.len() == 0 {
        assert(spec_insert_sorted(s, e) =~= s.insert(0, e));
    } else if !entry_lt(e, s.last()) {
        assert(p == s.len()) by {
            if p < s.len() {
                assert(entry_lt(e, s[p]));
                if p < s.len() - 1 {
                    assert(entry_lt(s[p], s[s.len() - 1]));
                }
                assert(s[s.len() - 1] == s.last());
            }
        }
        assert(s.push(e) =~= s.insert(p, e));
    } else {
        let s0 = s.drop_last();
        assert(p < s.len()) by {
            if p == s.len() {
                assert(!entry_lt(e, s[s.len() - 1]));
                assert(s[s.len() - 1] == s.last());
            }
        }
        lemma_sorted_drop_last_order(s);
        assert forall|k: int| 0 <= k < p implies !entry_lt(e, #[trigger] s0[k]) by {
            assert(s0[k] == s[k]);
        }
        if p < s0.len() {
            assert(s0[p] == s[p]);
        }
        lemma_insert_sorted_at(s0, e, p);
        assert(spec_insert_sorted(s, e) == s0.insert(p, e).push(s.last()));
        assert(s0.insert(p, e).push(s.last()) =~= s.insert(p, e));
    }
}

proof fn lemma_sorted_drop_last_order(s: Seq<StoreEntry>)
    requires
        sorted_entries(s),
        s.len() > 0,
    ensures
        sorted_entries(s.drop_last()),
{
    let s0 = s.drop_last();
    assert forall|i: int, j: int| 0 <= i < j < s0.len() implies entry_lt(
        #[trigger] s0[i],
        #[trigger] s0[j],
    ) by {
        assert(s0[i] == s[i]);
        assert(s0[j] == s[j]);
    }
}

// ---------------------------------------------------------------------------
// The executable store.
// ---------------------------------------------------------------------------

/// Whether `a` comes before `b` in the store order.
pub fn entry_precedes(a: &StoreEntry, b: &StoreEntry) -> (r: bool)
    ensures
        r == entry_lt(*a, *b),
{
    a.balance > b.balance || (a.balance == b.balance && a.id < b.id)
}

/// The in-memory result store: at most one entry per id, held in balance-
/// descending order with ties broken by ascending id.
pub struct ResultStore {
    pub entries: Vec<StoreEntry>,
}

impl ResultStore {
    /// Well-formedness: canonical order and no duplicate ids.
    pub open spec fn wf(&self) -> bool {
        sorted_entries(self.entries@) && distinct_ids(self.entries@)
    }

    /// The id-to-balance mapping the store holds.
    pub open spec fn as_map(&self) -> Map<GroupId, u32> {
        entries_map(self.entries@)
    }

    pub fn new() -> (s: Self)
        ensures
            s.wf(),
            s.entries@ == Seq::<StoreEntry>::empty(),
    {
        ResultStore { entries: Vec::new() }
    }

    /// Inserts or overwrites the entry for `id`: afterwards the store maps
    /// `id` to `balance` and every other id to what it mapped before, still
    /// in canonical order.
    pub fn record(&mut self, id: GroupId, balance: u32)
        requires
            old(self).wf(),
        ensures
            final(self).wf(),
            final(self).entries@ == spec_record(old(self).entries@, id, balance),
            final(self).as_map() == old(self).as_map().insert(id, balance),
    {
        let ghost s = self.entries@;
        let mut kept: Vec<StoreEntry> = Vec::new();
        let n = self.entries.len();
        let mut i: usize = 0;
        while i < n
            invariant
                0 <= i <= n,
                n == self.entries@.len(),
                self.entries@ == s,
                kept@ == spec_remove_id(s.subrange(0, i as int), id),
            decreases n - i,
        {
            let e = self.entries[i];
            proof {
                assert(s.subrange(0, i as int + 1).drop_last() =~= s.subrange(0, i as int));
                assert(s.subrange(0, i as int + 1).last() == s[i as int]);
            }
            if e.id != id {
                kept.push(e);
            }
            i += 1;
        }
        proof {
            assert(s.subrange(0, n as int) =~= s);
            lemma_remove_id_sorted(s, id);
            lemma_remove_id_props(s, id);
        }
        let entry = StoreEntry { id, balance };
        let klen = kept.len();
        let mut p: usize = 0;
        while p < klen && !entry_precedes(&entry, &kept[p])
            invariant
                0 <= p <= klen,
                klen == kept@.len(),
                kept@ == spec_remove_id(s, id),
                forall|k: int| 0 <= k < p ==> !entry_lt(entry, #[trigger] kept@[k]),
            decreases klen - p,
        {
            p = p + 1;
        }
        proof {
            lemma_insert_sorted_at(kept@, entry, p as int);
        }
        kept.insert(p, entry);
        self.entries = kept;
        proof {
            lemma_record_wf(s, id, balance);
            lemma_record_map(s, id, balance);
        }
    }

    /// The store's serialized text: one line per entry, separated by
    /// newlines.
    pub open spec fn spec_render(s: Seq<StoreEntry>) -> Seq<char>
        decreases s.len(),
    {
        if s.len() == 0 {
            Seq::empty()
        } else if s.len() == 1 {
            spec_line(s[0].id, s[0].balance)
        } else {
            Self::spec_render(s.drop_last()) + seq!['\n'] + spec_line(
                s.last().id,
                s.last().balance,
            )
        }
    }

    pub fn render(&self) -> (r: String)
        ensures
            r@ == Self::spec_render(self.entries@),
    {
        let mut v: Vec<char> = Vec::new();
        let n = self.entries.len();
        let mut i: usize = 0;
        while i < n
            invariant
                0 <= i <= n,
                n == self.entries@.len(),
                v@ == Self::spec_render(self.entries@.subrange(0, i as int)),
            decreases n - i,
        {
            if i > 0 {
                v.push('\n');
            }
            let e = self.entries[i];
            let line = robux_format_str(e.id, e.balance);
            append_str(&mut v, line.as_str());
            proof {
                let pre = self.entries@.subrange(0, i as int);
                let cur = self.entries@.subrange(0, i as int + 1);
                assert(cur.drop_last() =~= pre);
                assert(cur.last() == self.entries@[i as int]);
                assert(cur[0] == self.entries@[0]);
                assert(v@ =~= Self::spec_render(cur));
            }
            i += 1;
        }
        proof {
            assert(self.entries@.subrange(0, n as int) =~= self.entries@);
        }
        chars_to_string(&v)
    }

    /// Rebuilds a store from serialized text.  Each newline-separated line
    /// that matches the grammar is recorded in order; the rest are dropped.
    pub fn load(contents: &str) -> (s: Self)
        ensures
            s.wf(),
            s.entries@ == spec_load(contents@),
    {
        let chars = str_chars(contents);
        let lines = split_lines_exec(&chars);
        let ghost ls = lines.deep_view();
        let mut st = ResultStore::new();
        let n = lines.len();
        let mut i: usize = 0;
        proof {
            assert(st.entries@ =~= spec_load_lines(ls.subrange(0, 0)));
        }
        while i < n
            invariant
                0 <= i <= n,
                n == lines@.len(),
                lines.deep_view() == ls,
                ls == split_lines(chars@),
                chars@ == contents@,
                st.wf(),
                st.entries@ == spec_load_lines(ls.subrange(0, i as int)),
            decreases n - i,
        {
            let r = parse_line(&lines[i]);
            proof {
                assert(ls[i as int] == lines@[i as int]@);
                assert(ls.subrange(0, i as int + 1).drop_last() =~= ls.subrange(0, i as int));
                assert(ls.subrange(0, i as int + 1).last() == ls[i as int]);
            }
            match r {
                Some(pair) => {
                    st.record(pair.0, pair.1);
                },
                None => {},
            }
            i += 1;
        }
        proof {
            assert(ls.subrange(0, n as int) =~= ls);
        }
        st
    }
}

// ---------------------------------------------------------------------------
// Line splitting.
// ---------------------------------------------------------------------------

/// Newline splitting: the empty text is one empty line, and every `'\n'`
/// starts a fresh line.
pub open spec fn split_lines(s: Seq<char>) -> Seq<Seq<char>>
    decreases s.len(),
{
    if s.len() == 0 {
        seq![Seq::<char>::empty()]
    } else if s.last() == '\n' {
        split_lines(s.drop_last()).push(Seq::empty())
    } else {
        let r = split_lines(s.drop_last());
        r.update(r.len() - 1, r.last().push(s.last()))
    }
}

pub proof fn lemma_split_lines_len(s: Seq<char>)
    ensures
        split_lines(s).len() >= 1,
    decreases s.len(),
{
    if s.len() > 0 {
        lemma_split_lines_len(s.drop_last());
    }
}

pub fn split_lines_exec(v: &Vec<char>) -> (r: Vec<Vec<char>>)
    ensures
        r.deep_view() == split_lines(v@),
{
    let mut out: Vec<Vec<char>> = Vec::new();
    let mut cur: Vec<char> = Vec::new();
    let n = v.len();
    let mut i: usize = 0;
    proof {
        assert(out.deep_view().push(cur@) =~~= split_lines(v@.subrange(0, 0)));
    }
    while i < n
        invariant
            0 <= i <= n,
            n == v@.len(),
            out.deep_view().push(cur@) == split_lines(v@.subrange(0, i as int)),
        decreases n - i,
    {
        let ghost old_out = out.deep_view();
        let ghost old_cur = cur@;
        let c = v[i];
        proof {
            assert(v@.subrange(0, i as int + 1).drop_last() =~= v@.subrange(0, i as int));
            assert(v@.subrange(0, i as int + 1).last() == v@[i as int]);
        }
        if c == '\n' {
            out.push(cur);
            cur = Vec::new();
            proof {
                assert(out.deep_view() =~~= old_out.push(old_cur));
                assert(out.deep_view().push(cur@) =~~= split_lines(v@.subrange(0, i as int)).push(
                    Seq::empty(),
                ));
            }
        } else {
            cur.push(c);
            proof {
                let r = split_lines(v@.subrange(0, i as int));
                assert(r == old_out.push(old_cur));
                assert(r.len() >= 1);
                assert(r.last() == old_cur);
                assert(out.deep_view().push(cur@) =~~= r.update(r.len() - 1, r.last().push(
                    v@[i as int],
                )));
            }
        }
        i += 1;
    }
    proof {
        assert(v@.subrange(0, n as int) =~= v@);
    }
    out.push(cur);
    proof {
        assert(out.deep_view() =~~= split_lines(v@));
    }
    out
}

/// The store contents a serialized text stands for.
pub open spec fn spec_load_lines(ls: Seq<Seq<char>>) -> Seq<StoreEntry>
    decreases ls.len(),
{
    if ls.len() == 0 {
        Seq::empty()
    } else {
        let prev = spec_load_lines(ls.drop_last());
        match spec_parse_line(ls.last()) {
            Some(pair) => spec_record(prev, pair.0, pair.1),
            None => prev,
        }
    }
}

pub open spec fn spec_load(s: Seq<char>) -> Seq<StoreEntry> {
    spec_load_lines(split_lines(s))
}

pub proof fn lemma_load_lines_wf(ls: Seq<Seq<char>>)
    ensures
        sorted_entries(spec_load_lines(ls)),
        distinct_ids(spec_load_lines(ls)),
    decreases ls.len(),
{
    if ls.len() > 0 {
        lemma_load_lines_wf(ls.drop_last());
        match spec_parse_line(ls.last()) {
            Some(pair) => {
                lemma_record_wf(spec_load_lines(ls.drop_last()), pair.0, pair.1);
            },
            None => {},
        }
    }
}


// ---------------------------------------------------------------------------
// Round trip between rendering and loading.
// ---------------------------------------------------------------------------

pub proof fn lemma_line_no_newline(id: GroupId, balance: u32)
    ensures
        forall|k: int|
            0 <= k < spec_line(id, balance).len() ==> #[trigger] spec_line(id, balance)[k]
                != '\n',
{
    reveal_strlit("Group ");
    reveal_strlit(" has ");
    reveal_strlit(" robux.");
    lemma_dec_chars_digits(id as nat);
    lemma_dec_chars_digits(balance as nat);
    let p1 = "Group "@;
    let d1 = dec_chars(id as nat);
    let p2 = " has "@;
    let d2 = dec_chars(balance as nat);
    let p3 = " robux."@;
    let l = spec_line(id, balance);
    assert forall|k: int| 0 <= k < l.len() implies #[trigger] l[k] != '\n' by {
        if k < p1.len() {
            assert(l[k] == p1[k]);
        } else if k < p1.len() + d1.len() {
            assert(l[k] == d1[k - p1.len()]);
            assert(is_digit(l[k]));
        } else if k < p1.len() + d1.len() + p2.len() {
            assert(l[k] == p2[k - p1.len() - d1.len()]);
        } else if k < p1.len() + d1.len() + p2.len() + d2.len() {
            assert(l[k] == d2[k - p1.len() - d1.len() - p2.len()]);
            assert(is_digit(l[k]));
        } else {
            assert(l[k] == p3[k - p1.len() - d1.len() - p2.len() - d2.len()]);
        }
    }
}

pub proof fn lemma_split_append_no_newline(x: Seq<char>, y: Seq<char>)
    requires
        forall|k: int| 0 <= k < y.len() ==> #[trigger] y[k] != '\n',
    ensures
        split_lines(x + y) == split_lines(x).update(
            split_lines(x).len() - 1,
            split_lines(x).last() + y,
        ),
    decreases y.len(),
{
    lemma_split_lines_len(x);
    let rx = split_lines(x);
    if y.len() == 0 {
        assert(x + y =~= x);
        assert(rx.last() + y =~= rx.last());
        assert(rx.update(rx.len() - 1, rx.last() + y) =~~= rx);
    } else {
        let y0 = y.drop_last();
        assert forall|k: int| 0 <= k < y0.len() implies #[trigger] y0[k] != '\n' by {
            assert(y0[k] == y[k]);
        }
        lemma_split_append_no_newline(x, y0);
        let xy = x + y;
        assert(xy.last() == y.last()) by {
            assert(xy[xy.len() - 1] == y[y.len() - 1]);
        }
        assert(y[y.len() - 1] != '\n');
        assert(xy.drop_last() =~= x + y0);
        let r = split_lines(x + y0);
        lemma_split_lines_len(x + y0);
        assert(split_lines(xy) == r.update(r.len() - 1, r.last().push(y.last())));
        assert(r == rx.update(rx.len() - 1, rx.last() + y0));
        assert(r.len() == rx.len());
        assert(r.last() == rx.last() + y0) by {
            assert(r[r.len() - 1] == rx.last() + y0);
        }
        assert((rx.last() + y0).push(y.last()) =~= rx.last() + y);
        assert(r.update(r.len() - 1, r.last().push(y.last())) =~~= rx.update(
            rx.len() - 1,
            rx.last() + y,
        ));
    }
}

pub proof fn lemma_split_newline(x: Seq<char>)
    ensures
        split_lines(x + seq!['\n']) == split_lines(x).push(Seq::empty()),
{
    let xy = x + seq!['\n'];
    assert(xy.last() == '\n') by {
        assert(xy[xy.len() - 1] == seq!['\n'][0]);
    }
    assert(xy.drop_last() =~= x);
}

/// The rendered text of a nonempty well-formed store splits back into
/// exactly its lines.
pub proof fn lemma_split_render(s: Seq<StoreEntry>)
    requires
        s.len() > 0,
    ensures
        split_lines(ResultStore::spec_render(s)) == Seq::new(
            s.len(),
            |i: int| spec_line(s[i].id, s[i].balance),
        ),
    decreases s.len(),
{
    let lines = Seq::new(s.len(), |i: int| spec_line(s[i].id, s[i].balance));
    if s.len() == 1 {
        let l = spec_line(s[0].id, s[0].balance);
        lemma_line_no_newline(s[0].id, s[0].balance);
        assert(Seq::<char>::empty() + l =~= l);
        lemma_split_append_no_newline(Seq::<char>::empty(), l);
        assert(split_lines(Seq::<char>::empty()) == seq![Seq::<char>::empty()]);
        assert(seq![Seq::<char>::empty()].last() == Seq::<char>::empty());
        assert(Seq::<char>::empty() + l =~= l);
        assert(split_lines(l) =~~= seq![l]);
        assert(ResultStore::spec_render(s) == l);
        assert(seq![l] =~~= lines);
    } else {
        let s0 = s.drop_last();
        lemma_split_render(s0);
        let a = ResultStore::spec_render(s0);
        let l = spec_line(s.last().id, s.last().balance);
        lemma_line_no_newline(s.last().id, s.last().balance);
        assert(ResultStore::spec_render(s) == a + seq!['\n'] + l);
        lemma_split_newline(a);
        lemma_split_append_no_newline(a + seq!['\n'], l);
        let rn = split_lines(a).push(Seq::<char>::empty());
        assert(split_lines(a + seq!['\n']) == rn);
        assert(rn.last() == Seq::<char>::empty());
        assert(split_lines(a + seq!['\n'] + l) == rn.update(rn.len() - 1, rn.last() + l));
        assert(Seq::<char>::empty() + l =~= l);
        let lines0 = Seq::new(s0.len(), |i: int| spec_line(s0[i].id, s0[i].balance));
        assert(split_lines(a) == lines0);
        assert forall|i: int| 0 <= i < s0.len() implies lines0[i] == lines[i] by {
            assert(s0[i] == s[i]);
        }
        assert(rn.update(rn.len() - 1, rn.last() + l) =~~= lines);
    }
}

/// Parsing the rendered line of an entry gives back the entry.
pub proof fn lemma_parse_line_inverse(id: GroupId, balance: u32)
    ensures
        spec_parse_line(spec_line(id, balance)) == Some((id, balance)),
{
    reveal_strlit("Group ");
    reveal_strlit(" has ");
    reveal_strlit(" robux.");
    let p1 = "Group "@;
    let p2 = " has "@;
    let p3 = " robux."@;
    let d1 = dec_chars(id as nat);
    let d2 = dec_chars(balance as nat);
    let l = spec_line(id, balance);
    lemma_dec_chars_digits(id as nat);
    lemma_dec_chars_digits(balance as nat);
    lemma_dec_chars_val(id as nat);
    lemma_dec_chars_val(balance as nat);
    let i0 = p1.len() as int;
    let i1 = i0 + d1.len() as int;
    let j0 = i1 + p2.len() as int;
    let j1 = j0 + d2.len() as int;
    assert(l.len() == p1.len() + d1.len() + p2.len() + d2.len() + p3.len());
    assert(l.subrange(0, i0) =~= p1);
    assert(l.subrange(i0, i1) =~= d1);
    assert(l.subrange(i1, j0) =~= p2);
    assert(l.subrange(j0, j1) =~= d2);
    assert(l.subrange(j1, l.len() as int) =~= p3);
    assert(!is_digit(l[i1])) by {
        assert(l[i1] == p2[0]);
        assert(p2[0] == ' ');
    }
    assert forall|k: int| i0 <= k < i1 implies is_digit(#[trigger] l[k]) by {
        assert(l[k] == d1[k - i0]);
    }
    lemma_digit_run_stops(l, i0, i1);
    assert(!is_digit(l[j1])) by {
        assert(l[j1] == p3[0]);
        assert(p3[0] == ' ');
    }
    assert forall|k: int| j0 <= k < j1 implies is_digit(#[trigger] l[k]) by {
        assert(l[k] == d2[k - j0]);
    }
    lemma_digit_run_stops(l, j0, j1);
    assert(digits_val(l.subrange(i0, i1)) == id);
    assert(digits_val(l.subrange(j0, j1)) == balance);
}

/// Loading the lines of a well-formed store, in their stored order,
/// reconstructs exactly those entries.
pub proof fn lemma_load_lines_canonical(s: Seq<StoreEntry>)
    requires
        sorted_entries(s),
        distinct_ids(s),
    ensures
        spec_load_lines(Seq::new(s.len(), |i: int| spec_line(s[i].id, s[i].balance))) == s,
    decreases s.len(),
{
    let lines = Seq::new(s.len(), |i: int| spec_line(s[i].id, s[i].balance));
    if s.len() == 0 {
        assert(lines =~= Seq::<Seq<char>>::empty());
        assert(spec_load_lines(lines) =~= s);
    } else {
        let s0 = s.drop_last();
        lemma_sorted_drop_last(s);
        lemma_load_lines_canonical(s0);
        let lines0 = Seq::new(s0.len(), |i: int| spec_line(s0[i].id, s0[i].balance));
        assert forall|i: int| 0 <= i < s0.len() implies lines0[i] == lines[i] by {
            assert(s0[i] == s[i]);
        }
        assert(lines.drop_last() =~~= lines0);
        assert(lines.last() == spec_line(s.last().id, s.last().balance));
        lemma_parse_line_inverse(s.last().id, s.last().balance);
        assert(s0.push(s.last()) =~= s);
        lemma_record_extends(s0, s.last());
        assert(spec_load_lines(lines) == spec_record(s0, s.last().id, s.last().balance));
    }
}

/// After any sequence of record calls, the store file holds exactly one
/// line per distinct recorded id, each bearing the most recently recorded
/// balance, in balance-descending order with ties broken by ascending id.
pub proof fn lemma_file_after_records(ops: Seq<StoreEntry>)
    ensures
        ({
            let entries = apply_records(ops);
            &&& sorted_entries(entries)
            &&& distinct_ids(entries)
            &&& entries.len() == 0 ==> ResultStore::spec_render(entries) == Seq::<char>::empty()
            &&& entries.len() > 0 ==> split_lines(ResultStore::spec_render(entries)) == Seq::new(
                entries.len(),
                |i: int| spec_line(entries[i].id, entries[i].balance),
            )
        }),
{
    lemma_store_after_records(ops);
    let entries = apply_records(ops);
    if entries.len() > 0 {
        lemma_split_render(entries);
    }
}

/// Round trip: the rendered text of a well-formed store loads back to
/// exactly the same entries.
pub proof fn lemma_store_round_trip(s: Seq<StoreEntry>)
    requires
        sorted_entries(s),
        distinct_ids(s),
    ensures
        spec_load(ResultStore::spec_render(s)) == s,
{
    if s.len() == 0 {
        reveal_strlit("Group ");
        assert(ResultStore::spec_render(s) == Seq::<char>::empty());
        assert(split_lines(Seq::<char>::empty()) == seq![Seq::<char>::empty()]);
        assert(spec_parse_line(Seq::<char>::empty()) is None);
        assert(seq![Seq::<char>::empty()].drop_last() =~= Seq::<Seq<char>>::empty());
        assert(spec_load_lines(Seq::<Seq<char>>::empty()) == Seq::<StoreEntry>::empty());
        assert(spec_load(ResultStore::spec_render(s)) =~= s);
    } else {
        lemma_split_render(s);
        lemma_load_lines_canonical(s);
    }
}

} // verus!
