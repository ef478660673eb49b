//! Detection of host names that several enabled entries map to different
//! addresses.
//!
//! Host names are compared without regard to ASCII case; a conflict lists
//! every mapping of its host name, ordered by environment name, and the
//! conflicts come in the order of their lower-case host names.

use vstd::prelude::*;
use crate::hosts::{HostsGroup, HostsGroupView, HostsLineView, groups_view, lines_view};
use crate::text::{
    chars_eq, chars_less, chars_lt, chars_of, lemma_chars_lt_asym, lemma_chars_lt_total,
    lemma_chars_lt_trans, to_ascii_lower, to_ascii_lower_chars, join,
};

verus! {

/// Where a host name points in one environment.
#[derive(Debug, Clone, PartialEq, Eq)]
pub struct HostnameMapping {
    /// Environment name.
    pub environment: String,
    /// Address the host name maps to in that environment.
    pub ip: String,
}

/// Mathematical model of a [`HostnameMapping`].
pub struct MappingView {
    pub environment: Seq<char>,
    pub ip: Seq<char>,
}

impl View for HostnameMapping {
    type V = MappingView;

    open spec fn view(&self) -> MappingView {
        MappingView { environment: self.environment@, ip: self.ip@ }
    }
}

/// The models of a sequence of mappings.
pub open spec fn mappings_view(v: Seq<HostnameMapping>) -> Seq<MappingView> {
    v.map_values(|m: HostnameMapping| m@)
}

/// One enabled entry, as seen by conflict detection.
pub struct Occurrence {
    pub hostname: Seq<char>,
    pub mapping: MappingView,
}

/// The key under which host names are compared: their ASCII lower case.
pub open spec fn occ_key(o: Occurrence) -> Seq<char> {
    to_ascii_lower(o.hostname)
}

/// The enabled entries of one environment, in order.
pub open spec fn entry_occurrences(name: Seq<char>, es: Seq<HostsLineView>) -> Seq<Occurrence>
    decreases es.len(),
{
    if es.len() == 0 {
        seq![]
    } else {
        let r = entry_occurrences(name, es.drop_last());
        let e = es.last();
        if e.is_active {
            r.push(Occurrence { hostname: e.hostname, mapping: MappingView { environment: name, ip: e.ip } })
        } else {
            r
        }
    }
}

/// The enabled entries of all environments, in order.
pub open spec fn occurrences(gs: Seq<HostsGroupView>) -> Seq<Occurrence>
    decreases gs.len(),
{
    if gs.len() == 0 {
        seq![]
    } else {
        occurrences(gs.drop_last()) + entry_occurrences(gs.last().name, gs.last().entries)
    }
}

/// Whether some occurrence has key `k`.
pub open spec fn has_key(os: Seq<Occurrence>, k: Seq<char>) -> bool {
    exists|i: int| 0 <= i < os.len() && #[trigger] occ_key(os[i]) == k
}

/// The mappings of the occurrences with key `k`, in order.
pub open spec fn mappings_for(os: Seq<Occurrence>, k: Seq<char>) -> Seq<MappingView>
    decreases os.len(),
{
    if os.len() == 0 {
        seq![]
    } else {
        let r = mappings_for(os.drop_last(), k);
        if occ_key(os.last()) == k {
            r.push(os.last().mapping)
        } else {
            r
        }
    }
}

/// The spelling of the first occurrence with key `k`.
pub open spec fn first_hostname(os: Seq<Occurrence>, k: Seq<char>) -> Seq<char>
    decreases os.len(),
{
    if os.len() == 0 {
        seq![]
    } else if has_key(os.drop_last(), k) {
        first_hostname(os.drop_last(), k)
    } else {
        os.last().hostname
    }
}

/// Whether the mappings point to more than one address.
pub open spec fn ips_differ(m: Seq<MappingView>) -> bool {
    exists|i: int| 0 <= i < m.len() && #[trigger] m[i].ip != m[0].ip
}

/// Whether the mappings come from more than one environment.
pub open spec fn envs_differ(m: Seq<MappingView>) -> bool {
    exists|i: int| 0 <= i < m.len() && #[trigger] m[i].environment != m[0].environment
}

/// `m` inserted into `s` after every element whose environment name is not
/// greater than that of `m`.
pub open spec fn insert_by_env(s: Seq<MappingView>, m: MappingView) -> Seq<MappingView>
    decreases s.len(),
{
    if s.len() == 0 {
        seq![m]
    } else if chars_lt(m.environment, s.last().environment) {
        insert_by_env(s.drop_last(), m).push(s.last())
    } else {
        s.push(m)
    }
}

/// `s` sorted by environment name; mappings with equal environment names keep
/// their order (a stable sort).
pub open spec fn sort_by_env(s: Seq<MappingView>) -> Seq<MappingView>
    decreases s.len(),
{
    if s.len() == 0 {
        seq![]
    } else {
        insert_by_env(sort_by_env(s.drop_last()), s.last())
    }
}

/// Whether the environment names of `s` never decrease.
pub open spec fn env_sorted(s: Seq<MappingView>) -> bool {
    forall|i: int, j: int|
        0 <= i < j < s.len() ==> !chars_lt(#[trigger] s[j].environment, #[trigger] s[i].environment)
}

pub proof fn lemma_has_key_push(os: Seq<Occurrence>, o: Occurrence, k: Seq<char>)
    ensures
        has_key(os.push(o), k) == (has_key(os, k) || occ_key(o) == k),
{
    let p = os.push(o);
    if has_key(os, k) {
        let i = choose|i: int| 0 <= i < os.len() && #[trigger] occ_key(os[i]) == k;
        assert(p[i] == os[i]);
    }
    if occ_key(o) == k {
        assert(p[os.len() as int] == o);
    }
    if has_key(p, k) {
        let i = choose|i: int| 0 <= i < p.len() && #[trigger] occ_key(p[i]) == k;
        if i < os.len() {
            assert(p[i] == os[i]);
        }
    }
}

pub proof fn lemma_mappings_for_absent(os: Seq<Occurrence>, k: Seq<char>)
    requires
        !has_key(os, k),
    ensures
        mappings_for(os, k) == Seq::<MappingView>::empty(),
    decreases os.len(),
{
    if os.len() > 0 {
        let d = os.drop_last();
        assert(os == d.push(os.last()));
        lemma_has_key_push(d, os.last(), k);
        lemma_mappings_for_absent(d, k);
    }
}

pub proof fn lemma_first_hostname_key(os: Seq<Occurrence>, k: Seq<char>)
    requires
        has_key(os, k),
    ensures
        to_ascii_lower(first_hostname(os, k)) == k,
    decreases os.len(),
{
    let d = os.drop_last();
    assert(os == d.push(os.last()));
    lemma_has_key_push(d, os.last(), k);
    if has_key(d, k) {
        lemma_first_hostname_key(d, k);
    }
}

/// The mappings gathered so far for one lower-case host name.
struct KeyedRecord {
    key: Vec<char>,
    hostname: String,
    mappings: Vec<HostnameMapping>,
}

/// `r` describes the occurrences of its key among `os`.
spec fn record_ok(os: Seq<Occurrence>, r: KeyedRecord) -> bool {
    &&& has_key(os, r.key@)
    &&& r.hostname@ == first_hostname(os, r.key@)
    &&& mappings_view(r.mappings@) == mappings_for(os, r.key@)
}

/// The records describe every key of `os` once each.
spec fn records_ok(os: Seq<Occurrence>, rs: Seq<KeyedRecord>) -> bool {
    &&& forall|j: int| 0 <= j < rs.len() ==> record_ok(os, #[trigger] rs[j])
    &&& forall|j1: int, j2: int|
        0 <= j1 < rs.len() && 0 <= j2 < rs.len() && j1 != j2 ==> #[trigger] rs[j1].key@
            != #[trigger] rs[j2].key@
    &&& forall|k: Seq<char>| has_key(os, k) ==> exists|j: int| 0 <= j < rs.len() && #[trigger] rs[j].key@ == k
}

/// Records one more enabled entry.
fn add_occurrence(
    recs: &mut Vec<KeyedRecord>,
    hostname: &String,
    environment: &String,
    ip: &String,
    Ghost(os): Ghost<Seq<Occurrence>>,
)
    requires
        records_ok(os, old(recs)@),
    ensures
        records_ok(
            os.push(Occurrence { hostname: hostname@, mapping: MappingView { environment: environment@, ip: ip@ } }),
            final(recs)@,
        ),
{
    let ghost o = Occurrence { hostname: hostname@, mapping: MappingView { environment: environment@, ip: ip@ } };
    let ghost p = os.push(o);
    let key = to_ascii_lower_chars(&chars_of(hostname.as_str()));
    assert(key@ == occ_key(o));
    assert(p.drop_last() =~= os);
    assert(p.last() == o);
    let mapping = HostnameMapping { environment: environment.clone(), ip: ip.clone() };
    assert(mapping@ == o.mapping);
    let mut j: usize = 0;
    while j < recs.len()
        invariant
            j <= recs.len(),
            recs@ == old(recs)@,
            forall|i: int| 0 <= i < j ==> recs@[i].key@ != key@,
        ensures
            j <= recs.len(),
            recs@ == old(recs)@,
            forall|i: int| 0 <= i < j ==> recs@[i].key@ != key@,
            j < recs.len() ==> recs@[j as int].key@ == key@,
        decreases recs.len() - j,
    {
        if chars_eq(&recs[j].key, &key) {
            break;
        }
        j += 1;
    }
    proof {
        assert forall|k: Seq<char>| #[trigger] has_key(p, k) == (has_key(os, k) || occ_key(o) == k) by {
            lemma_has_key_push(os, o, k);
        }
    }
    if j < recs.len() {
        assert(recs@[j as int].key@ == key@);
        let ghost old_recs = recs@;
        recs[j].mappings.push(mapping);
        proof {
            assert forall|i: int| 0 <= i < recs@.len() implies record_ok(p, #[trigger] recs@[i]) by {
                assert(record_ok(os, old_recs[i]));
                if i == j {
                    assert(mappings_view(recs@[i].mappings@) =~= mappings_view(old_recs[i].mappings@).push(mapping@));
                } else {
                    assert(recs@[i] == old_recs[i]);
                    assert(old_recs[i].key@ != old_recs[j as int].key@);
                }
            }
            assert forall|k: Seq<char>| has_key(p, k) implies exists|i: int| 0 <= i < recs@.len() && #[trigger] recs@[i].key@ == k by {
                if !has_key(os, k) {
                    assert(recs@[j as int].key@ == k);
                } else {
                    let i = choose|i: int| 0 <= i < old_recs.len() && #[trigger] old_recs[i].key@ == k;
                    assert(recs@[i].key@ == k);
                }
            }
        }
    } else {
        let ghost old_recs = recs@;
        proof {
            if has_key(os, key@) {
                let i = choose|i: int| 0 <= i < old_recs.len() && #[trigger] old_recs[i].key@ == key@;
                assert(false);
            }
            lemma_mappings_for_absent(os, key@);
        }
        let mut ms: Vec<HostnameMapping> = Vec::new();
        ms.push(mapping);
        let rec = KeyedRecord { key, hostname: hostname.clone(), mappings: ms };
        assert(mappings_view(rec.mappings@) =~= seq![o.mapping]);
        recs.push(rec);
        proof {
            assert forall|i: int| 0 <= i < recs@.len() implies record_ok(p, #[trigger] recs@[i]) by {
                if i < old_recs.len() {
                    assert(recs@[i] == old_recs[i]);
                    assert(record_ok(os, old_recs[i]));
                    assert(old_recs[i].key@ != key@);
                }
            }
            assert forall|k: Seq<char>| has_key(p, k) implies exists|i: int| 0 <= i < recs@.len() && #[trigger] recs@[i].key@ == k by {
                if !has_key(os, k) {
                    assert(recs@[old_recs.len() as int].key@ == k);
                } else {
                    let i = choose|i: int| 0 <= i < old_recs.len() && #[trigger] old_recs[i].key@ == k;
                    assert(recs@[i].key@ == k);
                }
            }
        }
    }
}

/// One record per lower-case host name of the enabled entries of `groups`.
fn collect_records(groups: &[HostsGroup]) -> (r: Vec<KeyedRecord>)
    ensures
        records_ok(occurrences(groups_view(groups@)), r@),
{
    let mut recs: Vec<KeyedRecord> = Vec::new();
    let ghost gv = groups_view(groups@);
    let mut gi: usize = 0;
    while gi < groups.len()
        invariant
            gi <= groups.len(),
            gv == groups_view(groups@),
            records_ok(occurrences(gv.take(gi as int)), recs@),
        decreases groups.len() - gi,
    {
        let group = &groups[gi];
        let ghost before = occurrences(gv.take(gi as int));
        let ghost ev = lines_view(group.entries@);
        assert(gv.take(gi + 1).drop_last() =~= gv.take(gi as int));
        assert(gv.take(gi + 1).last() == group@);
        let mut ei: usize = 0;
        assert(before + entry_occurrences(group.name@, ev.take(0)) =~= before);
        while ei < group.entries.len()
            invariant
                ei <= group.entries.len(),
                ev == lines_view(group.entries@),
                records_ok(before + entry_occurrences(group.name@, ev.take(ei as int)), recs@),
            decreases group.entries.len() - ei,
        {
            let entry = &group.entries[ei];
            assert(ev.take(ei + 1).drop_last() =~= ev.take(ei as int));
            assert(ev.take(ei + 1).last() == entry@);
            if entry.is_active {
                let ghost os = before + entry_occurrences(group.name@, ev.take(ei as int));
                add_occurrence(&mut recs, &entry.hostname, &group.name, &entry.ip, Ghost(os));
                assert(os.push(Occurrence { hostname: entry.hostname@, mapping: MappingView { environment: group.name@, ip: entry.ip@ } })
                    =~= before + entry_occurrences(group.name@, ev.take(ei + 1)));
            } else {
                assert(before + entry_occurrences(group.name@, ev.take(ei as int))
                    =~= before + entry_occurrences(group.name@, ev.take(ei + 1)));
            }
            ei += 1;
        }
        assert(ev.take(ev.len() as int) =~= ev);
        gi += 1;
    }
    assert(gv.take(gv.len() as int) =~= gv);
    recs
}

/// Whether the keys of `rs` strictly increase.
spec fn keys_sorted(rs: Seq<KeyedRecord>) -> bool {
    forall|i: int, j: int| 0 <= i < j < rs.len() ==> chars_lt(#[trigger] rs[i].key@, #[trigger] rs[j].key@)
}

/// The records ordered by key.
fn sort_records(recs: Vec<KeyedRecord>, Ghost(os): Ghost<Seq<Occurrence>>) -> (r: Vec<KeyedRecord>)
    requires
        records_ok(os, recs@),
    ensures
        records_ok(os, r@),
        keys_sorted(r@),
{
    let mut rem = recs;
    let mut out: Vec<KeyedRecord> = Vec::new();
    while rem.len() > 0
        invariant
            forall|j: int| 0 <= j < out.len() ==> record_ok(os, #[trigger] out@[j]),
            forall|j: int| 0 <= j < rem.len() ==> record_ok(os, #[trigger] rem@[j]),
            keys_sorted(out@),
            forall|j1: int, j2: int|
                0 <= j1 < rem.len() && 0 <= j2 < rem.len() && j1 != j2 ==> #[trigger] rem@[j1].key@
                    != #[trigger] rem@[j2].key@,
            forall|j1: int, j2: int|
                0 <= j1 < rem.len() && 0 <= j2 < out.len() ==> #[trigger] rem@[j1].key@
                    != #[trigger] out@[j2].key@,
            forall|k: Seq<char>|
                has_key(os, k) ==> (exists|j: int| 0 <= j < rem.len() && #[trigger] rem@[j].key@ == k)
                    || (exists|j: int| 0 <= j < out.len() && #[trigger] out@[j].key@ == k),
        decreases rem.len(),
    {
        let ghost old_rem = rem@;
        let x = rem.pop().unwrap();
        assert(x == old_rem[old_rem.len() - 1]);
        assert(rem@ =~= old_rem.drop_last());
        let mut p = out.len();
        while p > 0 && chars_less(&x.key, &out[p - 1].key)
            invariant
                p <= out.len(),
                forall|q: int| p <= q < out.len() ==> chars_lt(x.key@, #[trigger] out@[q].key@),
            decreases p,
        {
            p -= 1;
        }
        let ghost old_out = out@;
        proof {
            if p > 0 {
                assert(old_rem[old_rem.len() - 1].key@ != old_out[p - 1].key@);
                lemma_chars_lt_total(x.key@, old_out[p - 1].key@);
            }
        }
        out.insert(p, x);
        proof {
            assert(out@ =~= old_out.insert(p as int, x));
            assert forall|i: int, j: int| 0 <= i < j < out@.len() implies chars_lt(
                #[trigger] out@[i].key@,
                #[trigger] out@[j].key@,
            ) by {
                if j == p {
                    if i < p - 1 {
                        lemma_chars_lt_trans(old_out[i].key@, old_out[p - 1].key@, x.key@);
                    }
                } else if i == p {
                    assert(out@[j] == old_out[j - 1]);
                } else {
                    let oi = if i < p { i } else { i - 1 };
                    let oj = if j < p { j } else { j - 1 };
                    assert(out@[i] == old_out[oi]);
                    assert(out@[j] == old_out[oj]);
                }
            }
            assert forall|j: int| 0 <= j < out.len() implies record_ok(os, #[trigger] out@[j]) by {
                if j < p {
                    assert(out@[j] == old_out[j]);
                } else if j > p {
                    assert(out@[j] == old_out[j - 1]);
                }
            }
            assert forall|j: int| 0 <= j < rem.len() implies record_ok(os, #[trigger] rem@[j]) by {
                assert(rem@[j] == old_rem[j]);
            }
            assert forall|j1: int, j2: int|
                0 <= j1 < rem.len() && 0 <= j2 < out.len() implies #[trigger] rem@[j1].key@
                    != #[trigger] out@[j2].key@ by {
                assert(rem@[j1] == old_rem[j1]);
                if j2 < p {
                    assert(out@[j2] == old_out[j2]);
                } else if j2 > p {
                    assert(out@[j2] == old_out[j2 - 1]);
                } else {
                    assert(old_rem[j1].key@ != old_rem[old_rem.len() - 1].key@);
                }
            }
            assert forall|j1: int, j2: int|
                0 <= j1 < rem.len() && 0 <= j2 < rem.len() && j1 != j2 implies #[trigger] rem@[j1].key@
                    != #[trigger] rem@[j2].key@ by {
                assert(rem@[j1] == old_rem[j1]);
                assert(rem@[j2] == old_rem[j2]);
            }
            assert forall|k: Seq<char>| has_key(os, k) implies (exists|j: int|
                0 <= j < rem.len() && #[trigger] rem@[j].key@ == k) || (exists|j: int|
                0 <= j < out.len() && #[trigger] out@[j].key@ == k) by {
                if exists|j: int| 0 <= j < old_rem.len() && #[trigger] old_rem[j].key@ == k {
                    let j = choose|j: int| 0 <= j < old_rem.len() && #[trigger] old_rem[j].key@ == k;
                    if j == old_rem.len() - 1 {
                        assert(out@[p as int].key@ == k);
                    } else {
                        assert(rem@[j].key@ == k);
                    }
                } else {
                    let j = choose|j: int| 0 <= j < old_out.len() && #[trigger] old_out[j].key@ == k;
                    if j < p {
                        assert(out@[j].key@ == k);
                    } else {
                        assert(out@[j + 1].key@ == k);
                    }
                }
            }
        }
    }
    proof {
        assert forall|j1: int, j2: int|
            0 <= j1 < out.len() && 0 <= j2 < out.len() && j1 != j2 implies #[trigger] out@[j1].key@
                != #[trigger] out@[j2].key@ by {
            if j1 < j2 {
                lemma_chars_lt_asym(out@[j1].key@, out@[j2].key@);
                crate::text::lemma_chars_lt_irreflexive(out@[j1].key@);
            } else {
                crate::text::lemma_chars_lt_irreflexive(out@[j2].key@);
            }
        }
    }
    out
}

/// A copy of a mapping.
fn copy_mapping(m: &HostnameMapping) -> (r: HostnameMapping)
    ensures
        r@ == m@,
{
    HostnameMapping { environment: m.environment.clone(), ip: m.ip.clone() }
}

/// The mappings sorted by environment name, keeping the order of mappings
/// with equal environment names.
pub fn sort_mappings_by_env(v: &Vec<HostnameMapping>) -> (r: Vec<HostnameMapping>)
    ensures
        mappings_view(r@) == sort_by_env(mappings_view(v@)),
{
    let ghost vv = mappings_view(v@);
    let mut out: Vec<HostnameMapping> = Vec::new();
    let mut i: usize = 0;
    while i < v.len()
        invariant
            i <= v.len(),
            vv == mappings_view(v@),
            mappings_view(out@) == sort_by_env(vv.take(i as int)),
        decreases v.len() - i,
    {
        let x = copy_mapping(&v[i]);
        let xe = chars_of(x.environment.as_str());
        let ghost m = x@;
        let ghost ov = mappings_view(out@);
        assert(vv.take(i + 1).drop_last() =~= vv.take(i as int));
        assert(vv.take(i + 1).last() == m);
        let mut p = out.len();
        assert(ov.take(p as int) =~= ov);
        assert(ov.skip(p as int) =~= Seq::<MappingView>::empty());
        while p > 0 && chars_less(&xe, &chars_of(out[p - 1].environment.as_str()))
            invariant
                p <= out.len(),
                ov == mappings_view(out@),
                xe@ == m.environment,
                insert_by_env(ov, m) == insert_by_env(ov.take(p as int), m) + ov.skip(p as int),
            decreases p,
        {
            let ghost t = ov.take(p as int);
            assert(t.drop_last() =~= ov.take(p - 1));
            assert(t.last() == ov[p - 1]);
            assert(insert_by_env(ov.take(p - 1), m) + ov.skip(p - 1) =~= insert_by_env(
                ov.take(p - 1),
                m,
            ).push(ov[p - 1]) + ov.skip(p as int));
            p -= 1;
        }
        if p == 0 {
            assert(ov.take(0) =~= Seq::<MappingView>::empty());
        }
        assert(insert_by_env(ov.take(p as int), m) == ov.take(p as int).push(m));
        out.insert(p, x);
        assert(mappings_view(out@) =~= ov.take(p as int).push(m) + ov.skip(p as int));
        i += 1;
    }
    assert(vv.take(v.len() as int) =~= vv);
    out
}

/// Whether the mappings point to more than one address.
pub fn has_distinct_ip(mappings: &Vec<HostnameMapping>) -> (r: bool)
    ensures
        r == ips_differ(mappings_view(mappings@)),
{
    let ghost mv = mappings_view(mappings@);
    if mappings.len() == 0 {
        return false;
    }
    let first = &mappings[0];
    assert(mv[0] == first@);
    let mut i: usize = 0;
    while i < mappings.len()
        invariant
            i <= mappings.len(),
            mv == mappings_view(mappings@),
            mappings.len() > 0,
            first@ == mv[0],
            forall|k: int| 0 <= k < i ==> #[trigger] mv[k].ip == mv[0].ip,
        decreases mappings.len() - i,
    {
        assert(mv[i as int] == mappings@[i as int]@);
        assert(mv[0] == first@);
        if mappings[i].ip != first.ip {
            assert(mv[i as int].ip != mv[0].ip);
            return true;
        }
        i += 1;
    }
    false
}

/// Whether the mappings come from more than one environment.
pub fn has_distinct_environment(mappings: &Vec<HostnameMapping>) -> (r: bool)
    ensures
        r == envs_differ(mappings_view(mappings@)),
{
    let ghost mv = mappings_view(mappings@);
    if mappings.len() == 0 {
        return false;
    }
    let first = &mappings[0];
    assert(mv[0] == first@);
    let mut i: usize = 0;
    while i < mappings.len()
        invariant
            i <= mappings.len(),
            mv == mappings_view(mappings@),
            mappings.len() > 0,
            first@ == mv[0],
            forall|k: int| 0 <= k < i ==> #[trigger] mv[k].environment == mv[0].environment,
        decreases mappings.len() - i,
    {
        assert(mv[i as int] == mappings@[i as int]@);
        assert(mv[0] == first@);
        if mappings[i].environment != first.environment {
            assert(mv[i as int].environment != mv[0].environment);
            return true;
        }
        i += 1;
    }
    false
}

/// A host name that enabled entries map to different addresses.
#[derive(Debug, Clone)]
pub struct HostnameConflict {
    /// The host name, spelled as at its first occurrence (compared without
    /// regard to ASCII case).
    pub hostname: String,
    /// Its mappings, ordered by environment name.
    pub mappings: Vec<HostnameMapping>,
    /// Whether the mappings span several environments (otherwise the
    /// conflict lies within one environment).
    pub is_cross_environment: bool,
}

/// Mathematical model of a [`HostnameConflict`].
pub struct ConflictView {
    pub hostname: Seq<char>,
    pub mappings: Seq<MappingView>,
    pub is_cross_environment: bool,
}

impl View for HostnameConflict {
    type V = ConflictView;

    open spec fn view(&self) -> ConflictView {
        ConflictView {
            hostname: self.hostname@,
            mappings: mappings_view(self.mappings@),
            is_cross_environment: self.is_cross_environment,
        }
    }
}

/// The models of a sequence of conflicts.
pub open spec fn conflicts_view(v: Seq<HostnameConflict>) -> Seq<ConflictView> {
    v.map_values(|c: HostnameConflict| c@)
}

/// The key of a conflict: its lower-case host name.
pub open spec fn conflict_key(c: ConflictView) -> Seq<char> {
    to_ascii_lower(c.hostname)
}

/// Whether the host names with key `k` map to more than one address.
pub open spec fn is_conflict_key(os: Seq<Occurrence>, k: Seq<char>) -> bool {
    has_key(os, k) && ips_differ(mappings_for(os, k))
}

/// The conflict reported for key `k`.
pub open spec fn conflict_for(os: Seq<Occurrence>, k: Seq<char>) -> ConflictView {
    let ms = sort_by_env(mappings_for(os, k));
    ConflictView { hostname: first_hostname(os, k), mappings: ms, is_cross_environment: envs_differ(ms) }
}

/// `cs` reports the conflicts of `os`: one per conflicting key, in strictly
/// increasing order of keys.
pub open spec fn is_conflict_report(os: Seq<Occurrence>, cs: Seq<ConflictView>) -> bool {
    &&& forall|i: int| 0 <= i < cs.len() ==> is_conflict_key(os, conflict_key(#[trigger] cs[i]))
        && cs[i] == conflict_for(os, conflict_key(cs[i]))
    &&& forall|i: int, j: int|
        0 <= i < j < cs.len() ==> chars_lt(conflict_key(#[trigger] cs[i]), conflict_key(#[trigger] cs[j]))
    &&& forall|k: Seq<char>|
        is_conflict_key(os, k) ==> exists|i: int| 0 <= i < cs.len() && #[trigger] conflict_key(cs[i]) == k
}

/// Finds the host names that enabled entries map to different addresses.
///
/// Only enabled entries count. Host names are compared without regard to
/// ASCII case; a conflict may span environments or lie within one.
pub fn find_hostname_conflicts(groups: &[HostsGroup]) -> (r: Vec<HostnameConflict>)
    ensures
        is_conflict_report(occurrences(groups_view(groups@)), conflicts_view(r@)),
{
    let ghost os = occurrences(groups_view(groups@));
    let recs = collect_records(groups);
    let sorted = sort_records(recs, Ghost(os));
    let mut out: Vec<HostnameConflict> = Vec::new();
    let mut idx: usize = 0;
    while idx < sorted.len()
        invariant
            idx <= sorted.len(),
            records_ok(os, sorted@),
            keys_sorted(sorted@),
            forall|i: int| 0 <= i < out.len() ==> {
                &&& is_conflict_key(os, conflict_key(#[trigger] out@[i]@))
                &&& out@[i]@ == conflict_for(os, conflict_key(out@[i]@))
                &&& exists|j: int| 0 <= j < idx && conflict_key(out@[i]@) == #[trigger] sorted@[j].key@
            },
            forall|i: int, i2: int|
                0 <= i < i2 < out.len() ==> chars_lt(conflict_key(#[trigger] out@[i]@), conflict_key(#[trigger] out@[i2]@)),
            forall|j: int| 0 <= j < idx && is_conflict_key(os, #[trigger] sorted@[j].key@) ==> exists|i: int|
                0 <= i < out.len() && conflict_key(#[trigger] out@[i]@) == sorted@[j].key@,
        decreases sorted.len() - idx,
    {
        let rec = &sorted[idx];
        let ghost k = rec.key@;
        assert(record_ok(os, sorted@[idx as int]));
        if has_distinct_ip(&rec.mappings) {
            let ms = sort_mappings_by_env(&rec.mappings);
            let cross = has_distinct_environment(&ms);
            let c = HostnameConflict { hostname: rec.hostname.clone(), mappings: ms, is_cross_environment: cross };
            proof {
                lemma_first_hostname_key(os, k);
                assert(conflict_key(c@) == k);
                assert(c@ == conflict_for(os, k));
                assert forall|i: int| 0 <= i < out.len() implies chars_lt(conflict_key(#[trigger] out@[i]@), k) by {
                    let j = choose|j: int| 0 <= j < idx && conflict_key(out@[i]@) == #[trigger] sorted@[j].key@;
                    assert(chars_lt(sorted@[j].key@, sorted@[idx as int].key@));
                }
            }
            let ghost old_out = out@;
            out.push(c);
            proof {
                assert forall|i: int| 0 <= i < out.len() implies {
                    &&& is_conflict_key(os, conflict_key(#[trigger] out@[i]@))
                    &&& out@[i]@ == conflict_for(os, conflict_key(out@[i]@))
                    &&& exists|j: int| 0 <= j < idx + 1 && conflict_key(out@[i]@) == #[trigger] sorted@[j].key@
                } by {
                    if i < old_out.len() {
                        assert(out@[i] == old_out[i]);
                    } else {
                        assert(conflict_key(out@[i]@) == sorted@[idx as int].key@);
                    }
                }
                assert forall|i: int, i2: int|
                    0 <= i < i2 < out.len() implies chars_lt(conflict_key(#[trigger] out@[i]@), conflict_key(#[trigger] out@[i2]@)) by {
                    assert(out@[i] == old_out[i]);
                    if i2 < old_out.len() {
                        assert(out@[i2] == old_out[i2]);
                    }
                }
                assert forall|j: int| 0 <= j < idx + 1 && is_conflict_key(os, #[trigger] sorted@[j].key@) implies exists|i: int|
                    0 <= i < out.len() && conflict_key(#[trigger] out@[i]@) == sorted@[j].key@ by {
                    if j < idx {
                        let i = choose|i: int| 0 <= i < old_out.len() && conflict_key(#[trigger] old_out[i]@) == sorted@[j].key@;
                        assert(out@[i] == old_out[i]);
                    } else {
                        assert(conflict_key(out@[old_out.len() as int]@) == sorted@[j].key@);
                    }
                }
            }
        }
        idx += 1;
    }
    proof {
        let cv = conflicts_view(out@);
        assert forall|i: int| 0 <= i < cv.len() implies is_conflict_key(os, conflict_key(#[trigger] cv[i]))
            && cv[i] == conflict_for(os, conflict_key(cv[i])) by {
            assert(cv[i] == out@[i]@);
        }
        assert forall|i: int, j: int|
            0 <= i < j < cv.len() implies chars_lt(conflict_key(#[trigger] cv[i]), conflict_key(#[trigger] cv[j])) by {
            assert(cv[i] == out@[i]@);
            assert(cv[j] == out@[j]@);
        }
        assert forall|k: Seq<char>| is_conflict_key(os, k) implies exists|i: int|
            0 <= i < cv.len() && #[trigger] conflict_key(cv[i]) == k by {
            let j = choose|j: int| 0 <= j < sorted@.len() && #[trigger] sorted@[j].key@ == k;
            let i = choose|i: int| 0 <= i < out.len() && conflict_key(#[trigger] out@[i]@) == sorted@[j].key@;
            assert(cv[i] == out@[i]@);
        }
    }
    out
}

/// "environment → address".
pub open spec fn mapping_text(m: MappingView) -> Seq<char> {
    m.environment + " → "@ + m.ip
}

/// The description of a conflict shown to the user.
pub open spec fn describe_spec(c: ConflictView) -> Seq<char> {
    let scope = if c.is_cross_environment { "跨环境"@ } else { "同一环境内"@ };
    c.hostname + "（"@ + scope + "）："@ + join(c.mappings.map_values(|m: MappingView| mapping_text(m)), "，"@)
}

impl HostnameConflict {
    /// The description of the conflict shown in the interface and the log:
    /// the host name, whether the conflict spans environments, and every
    /// mapping.
    pub fn describe(&self) -> (r: String)
        ensures
            r@ == describe_spec(self@),
    {
        let ghost parts = mappings_view(self.mappings@).map_values(|m: MappingView| mapping_text(m));
        let mut joined = String::new();
        let mut i: usize = 0;
        while i < self.mappings.len()
            invariant
                i <= self.mappings.len(),
                parts == mappings_view(self.mappings@).map_values(|m: MappingView| mapping_text(m)),
                joined@ == join(parts.take(i as int), "，"@),
            decreases self.mappings.len() - i,
        {
            let ghost before = joined@;
            if i > 0 {
                joined.append("，");
            }
            let m = &self.mappings[i];
            joined.append(m.environment.as_str());
            joined.append(" → ");
            joined.append(m.ip.as_str());
            proof {
                let t = parts.take(i + 1);
                assert(t.drop_last() =~= parts.take(i as int));
                assert(t.last() == mapping_text(m@));
                if i == 0 {
                    assert(parts.take(0) =~= Seq::<Seq<char>>::empty());
                    assert(joined@ =~= mapping_text(m@));
                } else {
                    assert(joined@ =~= before + "，"@ + mapping_text(m@));
                }
            }
            i += 1;
        }
        assert(parts.take(parts.len() as int) =~= parts);
        let mut out = self.hostname.clone();
        out.append("（");
        if self.is_cross_environment {
            out.append("跨环境");
        } else {
            out.append("同一环境内");
        }
        out.append("）：");
        out.append(joined.as_str());
        out
    }
}

/// The conflict warning: the descriptions joined by "；".
pub fn format_conflicts(conflicts: &[HostnameConflict]) -> (r: String)
    ensures
        r@ == join(conflicts_view(conflicts@).map_values(|c: ConflictView| describe_spec(c)), "；"@),
{
    let ghost parts = conflicts_view(conflicts@).map_values(|c: ConflictView| describe_spec(c));
    let mut out = String::new();
    let mut i: usize = 0;
    while i < conflicts.len()
        invariant
            i <= conflicts.len(),
            parts == conflicts_view(conflicts@).map_values(|c: ConflictView| describe_spec(c)),
            out@ == join(parts.take(i as int), "；"@),
        decreases conflicts.len() - i,
    {
        let ghost before = out@;
        if i > 0 {
            out.append("；");
        }
        let d = conflicts[i].describe();
        out.append(d.as_str());
        proof {
            let t = parts.take(i + 1);
            assert(t.drop_last() =~= parts.take(i as int));
            assert(t.last() == describe_spec(conflicts@[i as int]@));
            if i == 0 {
                assert(parts.take(0) =~= Seq::<Seq<char>>::empty());
                assert(out@ =~= d@);
            } else {
                assert(out@ =~= before + "；"@ + d@);
            }
        }
        i += 1;
    }
    assert(parts.take(parts.len() as int) =~= parts);
    out
}

} // verus!

verus! {

pub proof fn lemma_insert_by_env(s: Seq<MappingView>, m: MappingView)
    requires
        env_sorted(s),
    ensures
        env_sorted(insert_by_env(s, m)),
        insert_by_env(s, m).to_multiset() == s.to_multiset().insert(m),
    decreases s.len(),
{
    broadcast use vstd::seq_lib::group_to_multiset_ensures;
    if s.len() == 0 {
        assert(insert_by_env(s, m) =~= Seq::<MappingView>::empty().push(m));
    } else if chars_lt(m.environment, s.last().environment) {
        let init = s.drop_last();
        assert forall|i: int, j: int| 0 <= i < j < init.len() implies !chars_lt(
            #[trigger] init[j].environment,
            #[trigger] init[i].environment,
        ) by {
            assert(init[i] == s[i] && init[j] == s[j]);
        }
        lemma_insert_by_env(init, m);
        let t = insert_by_env(init, m);
        let r = t.push(s.last());
        assert(s =~= init.push(s.last()));
        assert forall|i: int, j: int| 0 <= i < j < r.len() implies !chars_lt(
            #[trigger] r[j].environment,
            #[trigger] r[i].environment,
        ) by {
            if j == r.len() - 1 {
                assert(t.to_multiset().count(r[i]) > 0) by {
                    assert(t.contains(r[i])) by {
                        assert(t[i] == r[i]);
                    }
                }
                if r[i] == m {
                    lemma_chars_lt_asym(m.environment, s.last().environment);
                } else {
                    assert(init.contains(r[i]));
                    let k = choose|k: int| 0 <= k < init.len() && init[k] == r[i];
                    assert(s[k] == r[i]);
                    assert(s[s.len() - 1] == s.last());
                }
            } else {
                assert(r[i] == t[i] && r[j] == t[j]);
            }
        }
    } else {
        let r = s.push(m);
        assert forall|i: int, j: int| 0 <= i < j < r.len() implies !chars_lt(
            #[trigger] r[j].environment,
            #[trigger] r[i].environment,
        ) by {
            if j == r.len() - 1 {
                if i < s.len() - 1 {
                    assert(!chars_lt(s[s.len() - 1].environment, s[i].environment));
                    lemma_chars_lt_total(m.environment, s[i].environment);
                    if chars_lt(m.environment, s[i].environment) {
                        lemma_chars_lt_total(m.environment, s.last().environment);
                        lemma_chars_lt_total(s.last().environment, s[i].environment);
                        if s.last().environment == m.environment {
                        } else {
                            lemma_chars_lt_trans(s.last().environment, m.environment, s[i].environment);
                        }
                    }
                }
            } else {
                assert(r[i] == s[i] && r[j] == s[j]);
            }
        }
    }
}

/// Sorting mappings by environment keeps every mapping (the result is a
/// rearrangement of the input) and leaves no mapping after one whose
/// environment name sorts later.
pub proof fn law_sort_by_env_sorted_permutation(s: Seq<MappingView>)
    ensures
        env_sorted(sort_by_env(s)),
        sort_by_env(s).to_multiset() == s.to_multiset(),
    decreases s.len(),
{
    broadcast use vstd::seq_lib::group_to_multiset_ensures;
    if s.len() == 0 {
        assert(sort_by_env(s) =~= Seq::<MappingView>::empty());
    } else {
        law_sort_by_env_sorted_permutation(s.drop_last());
        lemma_insert_by_env(sort_by_env(s.drop_last()), s.last());
        assert(s =~= s.drop_last().push(s.last()));
    }
}

} // verus!
