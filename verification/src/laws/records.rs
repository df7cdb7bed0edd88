//! Laws of record sets and of zone files as they are read.
use crate::config;
use crate::digits;
use crate::laws::letters;
use crate::laws::names;
use crate::store::RecordModel;
use crate::text;
use crate::zonefile;
use crate::zonefile::lexer;
use crate::zonefile::lexer::LogicalLineModel;
use crate::zonefile::{ParsedModel, ZoneScan};
use vstd::prelude::*;

verus! {

// ---------------------------------------------------------------------------
// Names and TTLs
// ---------------------------------------------------------------------------

/// Every owner name lies within the origin that it is relative to.
pub proof fn lemma_owner_within_origin(input: Seq<char>, origin: Seq<char>)
    ensures
        config::is_within(zonefile::owner_of(input, origin), origin),
{
    reveal_strlit(".");
    let n = config::canonical(input);
    let whole = n + "."@ + origin;
    let below = seq!['.'] + origin;
    assert(whole.subrange(whole.len() - below.len(), whole.len() as int) =~= below);
}

/// Every TTL lies in the range of a DNS TTL.
pub proof fn lemma_ttl_range(s: Seq<char>)
    ensures
        0 <= zonefile::ttl_of(s) <= 2_147_483_647,
{
}

// ---------------------------------------------------------------------------
// Record sets
// ---------------------------------------------------------------------------

/// Two records conflict in either order or in none.
pub proof fn lemma_conflict_symmetric(a: RecordModel, b: RecordModel)
    ensures
        zonefile::conflict(a, b) is Some <==> zonefile::conflict(b, a) is Some,
{
}

/// Every record conflicts with itself.
pub proof fn lemma_conflict_reflexive(a: RecordModel)
    ensures
        zonefile::conflict(a, a) is Some,
{
}

/// Whether no two of the records conflict.
pub open spec fn conflict_free(records: Seq<RecordModel>) -> bool {
    forall|i: int, j: int|
        0 <= i < j < records.len() ==> zonefile::conflict(
            #[trigger] records[i],
            #[trigger] records[j],
        ) is None
}

/// A record conflicts with none of a list if and only if it conflicts with no item of it.
proof fn lemma_conflict_with(a: RecordModel, rest: Seq<RecordModel>)
    ensures
        zonefile::conflict_with(a, rest) is None <==> forall|i: int|
            0 <= i < rest.len() ==> zonefile::conflict(a, #[trigger] rest[i]) is None,
    decreases rest.len(),
{
    if rest.len() > 0 {
        let tail = rest.drop_first();
        lemma_conflict_with(a, tail);
        if zonefile::conflict(a, rest[0]) is None {
            assert forall|i: int| 0 <= i < rest.len() && zonefile::conflict_with(
                a,
                tail,
            ) is None implies zonefile::conflict(a, #[trigger] rest[i]) is None by {
                if i > 0 {
                    assert(tail[i - 1] == rest[i]);
                }
            }
            if forall|i: int|
                0 <= i < rest.len() ==> zonefile::conflict(a, #[trigger] rest[i]) is None {
                assert forall|i: int| 0 <= i < tail.len() implies zonefile::conflict(
                    a,
                    #[trigger] tail[i],
                ) is None by {
                    assert(tail[i] == rest[i + 1]);
                }
            }
        }
    }
}

/// A record set is accepted if and only if no two of its records conflict.
pub proof fn lemma_accepted_iff_conflict_free(records: Seq<RecordModel>)
    ensures
        zonefile::set_conflict(records) is None <==> conflict_free(records),
    decreases records.len(),
{
    if records.len() > 0 {
        let tail = records.drop_first();
        lemma_accepted_iff_conflict_free(tail);
        lemma_conflict_with(records[0], tail);
        if zonefile::set_conflict(records) is None {
            assert forall|i: int, j: int| 0 <= i < j < records.len() implies zonefile::conflict(
                #[trigger] records[i],
                #[trigger] records[j],
            ) is None by {
                assert(tail[j - 1] == records[j]);
                if i > 0 {
                    assert(tail[i - 1] == records[i]);
                }
            }
        }
        if conflict_free(records) {
            assert forall|i: int| 0 <= i < tail.len() implies zonefile::conflict(
                records[0],
                #[trigger] tail[i],
            ) is None by {
                assert(tail[i] == records[i + 1]);
            }
            assert forall|i: int, j: int| 0 <= i < j < tail.len() implies zonefile::conflict(
                #[trigger] tail[i],
                #[trigger] tail[j],
            ) is None by {
                assert(tail[i] == records[i + 1]);
                assert(tail[j] == records[j + 1]);
            }
        }
    }
}

/// How a record conflicts with a list depends on names, types and values alone.
proof fn lemma_conflict_with_ignores_ids(
    a: RecordModel,
    b: RecordModel,
    rest: Seq<RecordModel>,
    others: Seq<RecordModel>,
)
    requires
        same_data(a, b),
        rest.len() == others.len(),
        forall|i: int| 0 <= i < rest.len() ==> same_data(#[trigger] rest[i], others[i]),
    ensures
        zonefile::conflict_with(a, rest) == zonefile::conflict_with(b, others),
    decreases rest.len(),
{
    if rest.len() > 0 {
        assert(same_data(rest[0], others[0]));
        let tail = rest.drop_first();
        assert forall|i: int| 0 <= i < tail.len() implies same_data(
            #[trigger] tail[i],
            others.drop_first()[i],
        ) by {
            assert(same_data(rest[i + 1], others[i + 1]));
        }
        lemma_conflict_with_ignores_ids(a, b, tail, others.drop_first());
    }
}

/// Whether two records have the same name, type and value.
pub open spec fn same_data(a: RecordModel, b: RecordModel) -> bool {
    a.name == b.name && a.rtype == b.rtype && a.value == b.value
}

/// How records conflict depends on their names, types and values alone: ids, TTLs and times decide
/// nothing.
pub proof fn lemma_conflict_ignores_ids(a: Seq<RecordModel>, b: Seq<RecordModel>)
    requires
        a.len() == b.len(),
        forall|i: int| 0 <= i < a.len() ==> same_data(#[trigger] a[i], b[i]),
    ensures
        zonefile::set_conflict(a) == zonefile::set_conflict(b),
    decreases a.len(),
{
    if a.len() > 0 {
        assert(same_data(a[0], b[0]));
        let tail = a.drop_first();
        assert forall|i: int| 0 <= i < tail.len() implies same_data(
            #[trigger] tail[i],
            b.drop_first()[i],
        ) by {
            assert(same_data(a[i + 1], b[i + 1]));
        }
        lemma_conflict_with_ignores_ids(a[0], b[0], tail, b.drop_first());
        lemma_conflict_ignores_ids(tail, b.drop_first());
    }
}

/// A new record is accepted if and only if the existing ones are, and it conflicts with none of them.
pub proof fn lemma_new_record(existing: Seq<RecordModel>, candidate: RecordModel)
    ensures
        conflict_free(existing.push(candidate)) <==> conflict_free(existing) && forall|i: int|
            0 <= i < existing.len() ==> zonefile::conflict(
                #[trigger] existing[i],
                candidate,
            ) is None,
{
    let all = existing.push(candidate);
    if conflict_free(all) {
        assert forall|i: int, j: int| 0 <= i < j < existing.len() implies zonefile::conflict(
            #[trigger] existing[i],
            #[trigger] existing[j],
        ) is None by {
            assert(all[i] == existing[i] && all[j] == existing[j]);
        }
        assert forall|i: int| 0 <= i < existing.len() implies zonefile::conflict(
            #[trigger] existing[i],
            candidate,
        ) is None by {
            assert(all[i] == existing[i] && all[existing.len() as int] == candidate);
        }
    } else {
        let (i, j) = choose|i: int, j: int|
            0 <= i < j < all.len() && zonefile::conflict(
                #[trigger] all[i],
                #[trigger] all[j],
            ) is Some;
        assert(all[i] == existing[i]);
        if j < existing.len() {
            assert(all[j] == existing[j]);
        }
    }
}

/// Records without a conflict are all different.
proof fn lemma_conflict_free_distinct(records: Seq<RecordModel>)
    requires
        conflict_free(records),
    ensures
        records.no_duplicates(),
{
    assert forall|i: int, j: int|
        0 <= i < records.len() && 0 <= j < records.len() && i != j implies records[i]
        != records[j] by {
        lemma_conflict_reflexive(records[i]);
        if i < j {
            assert(zonefile::conflict(records[i], records[j]) is None);
        } else {
            assert(zonefile::conflict(records[j], records[i]) is None);
        }
    }
}

/// Whether records conflict does not depend on their order.
pub proof fn lemma_conflict_free_permutation(a: Seq<RecordModel>, b: Seq<RecordModel>)
    requires
        a.to_multiset() == b.to_multiset(),
        conflict_free(a),
    ensures
        conflict_free(b),
{
    broadcast use vstd::seq_lib::group_to_multiset_ensures;

    lemma_conflict_free_distinct(a);
    a.lemma_multiset_has_no_duplicates();
    b.lemma_multiset_has_no_duplicates_conv();
    assert forall|i: int, j: int| 0 <= i < j < b.len() implies zonefile::conflict(
        #[trigger] b[i],
        #[trigger] b[j],
    ) is None by {
        assert(b.contains(b[i]) && b.contains(b[j]));
        assert(a.to_multiset().count(b[i]) > 0 && a.to_multiset().count(b[j]) > 0);
        assert(a.contains(b[i]) && a.contains(b[j]));
        let k = choose|k: int| 0 <= k < a.len() && a[k] == b[i];
        let m = choose|m: int| 0 <= m < a.len() && a[m] == b[j];
        assert(b[i] != b[j]);
        if k < m {
            assert(zonefile::conflict(a[k], a[m]) is None);
        } else {
            assert(zonefile::conflict(a[m], a[k]) is None);
            lemma_conflict_symmetric(a[k], a[m]);
        }
    }
}

/// Taking records away causes no conflict.
pub proof fn lemma_conflict_free_filter(records: Seq<RecordModel>, p: spec_fn(RecordModel) -> bool)
    requires
        conflict_free(records),
    ensures
        conflict_free(records.filter(p)),
    decreases records.len(),
{
    reveal(Seq::filter);
    if records.len() > 0 {
        let init = records.drop_last();
        assert(init.push(records.last()) == records);
        lemma_new_record(init, records.last());
        lemma_conflict_free_filter(init, p);
        if p(records.last()) {
            let kept = init.filter(p);
            assert forall|i: int| 0 <= i < kept.len() implies zonefile::conflict(
                #[trigger] kept[i],
                records.last(),
            ) is None by {
                assert(kept.contains(kept[i]));
                init.lemma_filter_contains_rev(p, kept[i]);
                let k = choose|k: int| 0 <= k < init.len() && init[k] == kept[i];
                assert(zonefile::conflict(init[k], records.last()) is None);
            }
            lemma_new_record(kept, records.last());
        }
    }
}

/// Whether `rtype` is CNAME, in any case.
pub open spec fn is_cname(rtype: Seq<char>) -> bool {
    letters::same_letters(rtype, seq!['C', 'N', 'A', 'M', 'E'])
}

/// Whether two records at one name are the same record: of one type, case aside, and with one value,
/// white space around it aside.
pub open spec fn is_duplicate(a: RecordModel, b: RecordModel) -> bool {
    letters::same_letters(a.rtype, b.rtype) && text::trimmed(a.value) == text::trimmed(b.value)
}

/// Whether two records can stand in one zone: they have different names, or neither is a CNAME and they
/// are not the same record.
pub open spec fn can_coexist(a: RecordModel, b: RecordModel) -> bool {
    a.name != b.name || (!is_cname(a.rtype) && !is_cname(b.rtype) && !is_duplicate(a, b))
}

/// Two records conflict if and only if they cannot stand in one zone. The message names the type and the
/// owner of a record that is there twice, and otherwise the owner of the CNAME.
pub proof fn lemma_conflict_means(a: RecordModel, b: RecordModel)
    ensures
        zonefile::conflict(a, b) is None <==> can_coexist(a, b),
        zonefile::conflict(a, b) matches Some(e) ==> e == if is_duplicate(a, b) {
            "duplicate "@ + text::uppered(a.rtype) + " record for "@ + a.name + "."@
        } else {
            "CNAME record for "@ + a.name
                + ". cannot coexist with other records at the same name"@
        },
{
    reveal_strlit("CNAME");
    let name = seq!['C', 'N', 'A', 'M', 'E'];
    assert("CNAME"@ =~= name);
    assert(text::uppered(name) =~= name);
    letters::lemma_same_upper(a.rtype, name);
    letters::lemma_same_upper(b.rtype, name);
    letters::lemma_same_upper(a.rtype, b.rtype);
}

/// The owner of a CNAME owns nothing else: a record set is accepted if and only if of any two records
/// with one name neither is a CNAME, and they differ in type or in value.
pub proof fn lemma_accepted_means(records: Seq<RecordModel>)
    ensures
        zonefile::set_conflict(records) is None <==> forall|i: int, j: int|
            0 <= i < records.len() && 0 <= j < records.len() && i != j ==> can_coexist(
                #[trigger] records[i],
                #[trigger] records[j],
            ),
{
    lemma_accepted_iff_conflict_free(records);
    assert forall|i: int, j: int|
        0 <= i < records.len() && 0 <= j < records.len() implies (zonefile::conflict(
        #[trigger] records[i],
        #[trigger] records[j],
    ) is None <==> can_coexist(records[i], records[j])) by {
        lemma_conflict_means(records[i], records[j]);
    }
    if conflict_free(records) {
        assert forall|i: int, j: int|
            0 <= i < records.len() && 0 <= j < records.len() && i != j implies can_coexist(
            #[trigger] records[i],
            #[trigger] records[j],
        ) by {
            if i < j {
                assert(zonefile::conflict(records[i], records[j]) is None);
            } else {
                assert(zonefile::conflict(records[j], records[i]) is None);
                lemma_conflict_symmetric(records[i], records[j]);
            }
        }
    } else {
        let (i, j) = choose|i: int, j: int|
            0 <= i < j < records.len() && zonefile::conflict(
                #[trigger] records[i],
                #[trigger] records[j],
            ) is Some;
        assert(!can_coexist(records[i], records[j]));
    }
}

/// Whether the records at `i` and `j` are the first two that cannot stand in one zone.
pub open spec fn is_first_clash(records: Seq<RecordModel>, i: int, j: int) -> bool {
    &&& 0 <= i < j < records.len()
    &&& !can_coexist(records[i], records[j])
    &&& forall|k: int, m: int|
        0 <= k < m < records.len() && (k < i || (k == i && m < j)) ==> can_coexist(
            #[trigger] records[k],
            #[trigger] records[m],
        )
}

/// A record set that is refused is refused for the first two records that clash.
pub proof fn lemma_refused_for_first_clash(records: Seq<RecordModel>)
    ensures
        zonefile::set_conflict(records) matches Some(e) ==> exists|i: int, j: int| #[trigger]
            is_first_clash(records, i, j) && zonefile::conflict(records[i], records[j]) == Some(e),
    decreases records.len(),
{
    if records.len() > 0 {
        let tail = records.drop_first();
        lemma_first_clash_with(records[0], tail);
        match zonefile::conflict_with(records[0], tail) {
            Some(e) => {
                let j = choose|j: int|
                    0 <= j < tail.len() && zonefile::conflict(records[0], #[trigger] tail[j])
                        == Some(e) && forall|m: int|
                        0 <= m < j ==> zonefile::conflict(records[0], #[trigger] tail[m]) is None;
                lemma_conflict_means(records[0], tail[j]);
                assert forall|k: int, m: int|
                    0 <= k < m < records.len() && (k < 0 || (k == 0 && m < j
                        + 1)) implies can_coexist(
                    #[trigger] records[k],
                    #[trigger] records[m],
                ) by {
                    assert(tail[m - 1] == records[m]);
                    lemma_conflict_means(records[0], tail[m - 1]);
                }
                assert(records[j + 1] == tail[j]);
                assert(is_first_clash(records, 0, j + 1));
            },
            None => {
                lemma_refused_for_first_clash(tail);
                lemma_conflict_with(records[0], tail);
                if let Some(e) = zonefile::set_conflict(tail) {
                    let (i, j) = choose|i: int, j: int| #[trigger]
                        is_first_clash(tail, i, j) && zonefile::conflict(tail[i], tail[j])
                            == Some(e);
                    assert(records[i + 1] == tail[i] && records[j + 1] == tail[j]);
                    assert forall|k: int, m: int|
                        0 <= k < m < records.len() && (k < i + 1 || (k == i + 1 && m < j
                            + 1)) implies can_coexist(
                        #[trigger] records[k],
                        #[trigger] records[m],
                    ) by {
                        assert(tail[m - 1] == records[m]);
                        if k > 0 {
                            assert(tail[k - 1] == records[k]);
                            assert(can_coexist(tail[k - 1], tail[m - 1]));
                        } else {
                            assert(zonefile::conflict(records[0], tail[m - 1]) is None);
                            lemma_conflict_means(records[0], tail[m - 1]);
                        }
                    }
                    assert(is_first_clash(records, i + 1, j + 1));
                }
            },
        }
    }
}

/// The first record of a list that a record conflicts with is the one reported.
proof fn lemma_first_clash_with(a: RecordModel, rest: Seq<RecordModel>)
    ensures
        zonefile::conflict_with(a, rest) matches Some(e) ==> exists|j: int|
            0 <= j < rest.len() && zonefile::conflict(a, #[trigger] rest[j]) == Some(e)
                && forall|m: int|
                0 <= m < j ==> zonefile::conflict(a, #[trigger] rest[m]) is None,
    decreases rest.len(),
{
    if rest.len() > 0 {
        let tail = rest.drop_first();
        if zonefile::conflict(a, rest[0]) is None {
            lemma_first_clash_with(a, tail);
            if let Some(e) = zonefile::conflict_with(a, tail) {
                let j = choose|j: int|
                    0 <= j < tail.len() && zonefile::conflict(a, #[trigger] tail[j]) == Some(e)
                        && forall|m: int|
                        0 <= m < j ==> zonefile::conflict(a, #[trigger] tail[m]) is None;
                assert(rest[j + 1] == tail[j]);
                assert forall|m: int| 0 <= m < j + 1 implies zonefile::conflict(
                    a,
                    #[trigger] rest[m],
                ) is None by {
                    if m > 0 {
                        assert(tail[m - 1] == rest[m]);
                    }
                }
            }
        } else {
            assert(rest[0] == rest[0]);
        }
    }
}

// ---------------------------------------------------------------------------
// Zone files
// ---------------------------------------------------------------------------

/// Whether a parsed record belongs to the zone: its name lies within it, its type can be edited, and
/// its TTL is in range.
pub open spec fn is_zone_record(p: ParsedModel, zone: Seq<char>) -> bool {
    config::is_within(p.name, zone) && zonefile::is_editable(p.rtype) && 0 <= p.ttl
        <= 2_147_483_647
}

/// Whether a scan holds records of the zone only, and an origin within the zone.
pub open spec fn is_zone_scan(st: ZoneScan, zone: Seq<char>) -> bool {
    &&& config::is_within(st.origin, zone)
    &&& 0 <= st.default_ttl <= 2_147_483_647
    &&& forall|i: int| 0 <= i < st.records.len() ==> is_zone_record(#[trigger] st.records[i], zone)
}

/// TTLs that are read stay in range.
proof fn lemma_skip_ttl_range(tokens: Seq<Seq<char>>, from: int, ttl: i64)
    requires
        0 <= ttl <= 2_147_483_647,
    ensures
        0 <= zonefile::skip_ttl_and_class(tokens, from, ttl).0 <= 2_147_483_647,
    decreases tokens.len() - from,
{
    if 0 <= from < tokens.len() {
        if zonefile::is_ttl_token(tokens[from]) {
            lemma_skip_ttl_range(tokens, from + 1, zonefile::ttl_of(tokens[from]));
        } else if zonefile::is_class_token(tokens[from]) {
            lemma_skip_ttl_range(tokens, from + 1, ttl);
        }
    }
}

/// Reading a line keeps to the zone.
proof fn lemma_line_keeps_to_zone(zone: Seq<char>, st: ZoneScan, line: LogicalLineModel)
    requires
        is_zone_scan(st, zone),
    ensures
        zonefile::read_zone_line(zone, st, line) matches Ok(next) ==> is_zone_scan(next, zone),
{
    if let Some(tokens) = lexer::tokens_of(line.text) {
        if tokens.len() > 0 {
            let named = zonefile::names_owner(tokens[0], line.leading_space);
            let from: int = if named {
                1
            } else {
                0
            };
            lemma_skip_ttl_range(tokens, from, st.default_ttl);
        }
    }
}

/// Reading lines keeps to the zone.
proof fn lemma_lines_keep_to_zone(zone: Seq<char>, st: ZoneScan, lines: Seq<LogicalLineModel>)
    requires
        is_zone_scan(st, zone),
    ensures
        zonefile::read_zone_lines(zone, st, lines) matches Ok(last) ==> is_zone_scan(last, zone),
    decreases lines.len(),
{
    if lines.len() > 0 {
        lemma_line_keeps_to_zone(zone, st, lines[0]);
        if let Ok(next) = zonefile::read_zone_line(zone, st, lines[0]) {
            lemma_lines_keep_to_zone(zone, next, lines.drop_first());
        }
    }
}

/// Every record that a zone file gives belongs to the zone.
pub proof fn lemma_zone_file_keeps_to_zone(zone: Seq<char>, input: Seq<char>)
    ensures
        zonefile::zone_file_records(zone, input) matches Ok(records) ==> forall|i: int|
            0 <= i < records.len() ==> is_zone_record(#[trigger] records[i], zone),
{
    if let Ok(lines) = lexer::logical_lines_of(input) {
        lemma_lines_keep_to_zone(zone, zonefile::first_zone_scan(zone), lines);
    }
}

} // verus!
