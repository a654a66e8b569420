//! Which advertising devices are MeshCore radios, and which of them were
//! already seen during discovery.
use vstd::prelude::*;
use crate::text::{
    has_prefix, lex_lt, LexOrder, lex_order, chars_of, starts_with, lemma_lex_irreflexive,
    lemma_lex_asymmetric, lemma_lex_transitive,
};
use crate::ui::model::strings_view;

verus! {

/// MeshCore companion radios advertise a name beginning with `MeshCore` (case matters).
pub open spec fn meshcore_name(name: Seq<char>) -> bool {
    has_prefix(name, "MeshCore"@)
}

/// Whether an advertised name belongs to a MeshCore device.
pub fn is_meshcore_name(name: &str) -> (r: bool)
    ensures
        r == meshcore_name(name@),
{
    let v = chars_of(name);
    starts_with(&v, "MeshCore")
}

/// The name shown for a device that advertises none.
pub fn name_or_unknown(name: Option<String>) -> (r: String)
    ensures
        r@ == match name {
            Some(n) => n@,
            None => "Unknown"@,
        },
{
    match name {
        Some(n) => n,
        None => String::from_str("Unknown"),
    }
}

// ---------------------------------------------------------------------------
// Service UUID lists
// ---------------------------------------------------------------------------
/// Each element strictly precedes every later one.
pub open spec fn strictly_sorted(s: Seq<Seq<char>>) -> bool {
    forall|i: int, j: int| 0 <= i < j < s.len() ==> lex_lt(#[trigger] s[i], #[trigger] s[j])
}

/// `out` holds exactly the distinct strings of `input`, in increasing order.
pub open spec fn normalized(input: Seq<Seq<char>>, out: Seq<Seq<char>>) -> bool {
    strictly_sorted(out) && out.to_set() == input.to_set()
}

/// A strictly sorted sequence is determined by the set of its elements.
pub proof fn lemma_sorted_unique(a: Seq<Seq<char>>, b: Seq<Seq<char>>)
    requires
        strictly_sorted(a),
        strictly_sorted(b),
        a.to_set() == b.to_set(),
    ensures
        a == b,
    decreases a.len(),
{
    if a.len() == 0 {
        if b.len() > 0 {
            assert(b.to_set().contains(b[0]));
            assert(!a.contains(b[0]));
        }
        assert(a =~= b);
    } else if b.len() == 0 {
        assert(a.to_set().contains(a[0]));
        assert(!b.contains(a[0]));
    } else {
        assert(a.to_set().contains(a[0]));
        assert(b.to_set().contains(b[0]));
        let ka = choose|k: int| 0 <= k < b.len() && b[k] == a[0];
        let kb = choose|k: int| 0 <= k < a.len() && a[k] == b[0];
        if a[0] != b[0] {
            assert(ka > 0 && kb > 0);
            assert(lex_lt(b[0], b[ka]));
            assert(lex_lt(a[0], a[kb]));
            lemma_lex_asymmetric(a[0], b[0]);
        }
        let ra = a.drop_first();
        let rb = b.drop_first();
        assert forall|x: Seq<char>| ra.to_set().contains(x) implies rb.to_set().contains(x) by {
            let i = choose|i: int| 0 <= i < ra.len() && ra[i] == x;
            assert(a[i + 1] == x);
            assert(b.to_set().contains(x));
            let j = choose|j: int| 0 <= j < b.len() && b[j] == x;
            if j == 0 {
                assert(lex_lt(a[0], a[i + 1]));
                lemma_lex_irreflexive(x);
            }
            assert(rb[j - 1] == x);
        }
        assert forall|x: Seq<char>| rb.to_set().contains(x) implies ra.to_set().contains(x) by {
            let i = choose|i: int| 0 <= i < rb.len() && rb[i] == x;
            assert(b[i + 1] == x);
            assert(a.to_set().contains(x));
            let j = choose|j: int| 0 <= j < a.len() && a[j] == x;
            if j == 0 {
                assert(lex_lt(b[0], b[i + 1]));
                lemma_lex_irreflexive(x);
            }
            assert(ra[j - 1] == x);
        }
        assert(ra.to_set() =~= rb.to_set());
        lemma_sorted_unique(ra, rb);
        assert(a =~= seq![a[0]] + ra);
        assert(b =~= seq![b[0]] + rb);
    }
}

/// Normalizing an already normalized list changes nothing, and any two
/// normalizations of one list agree.
pub proof fn lemma_normalized_idempotent(input: Seq<Seq<char>>, out: Seq<Seq<char>>, again: Seq<Seq<char>>)
    requires
        normalized(input, out),
        normalized(out, again),
    ensures
        again == out,
{
    lemma_sorted_unique(again, out);
}

/// Sort a UUID list and drop repeated entries; `None` stays `None`.
pub fn normalize_uuids(uuids: Option<Vec<String>>) -> (r: Option<Vec<String>>)
    ensures
        match uuids {
            None => r is None,
            Some(u) => r matches Some(out) && normalized(strings_view(u@), strings_view(out@)),
        },
{
    match uuids {
        None => None,
        Some(list) => Some(sorted_distinct(&list)),
    }
}

fn sorted_distinct(list: &Vec<String>) -> (out: Vec<String>)
    ensures
        normalized(strings_view(list@), strings_view(out@)),
{
    let ghost input = strings_view(list@);
    let n = list.len();
    let mut out: Vec<String> = Vec::new();
    let mut i: usize = 0;
    assert(strings_view(out@).to_set() =~= input.subrange(0, 0).to_set());
    while i < n
        invariant
            n == list@.len(),
            input == strings_view(list@),
            i <= n,
            strictly_sorted(strings_view(out@)),
            strings_view(out@).to_set() == input.subrange(0, i as int).to_set(),
        decreases n - i,
    {
        let x = list[i].clone();
        let xc = chars_of(x.as_str());
        let ghost ov = strings_view(out@);
        let m = out.len();
        let mut p: usize = 0;
        let mut dup = false;
        while p < m
            invariant_except_break
                !dup,
            invariant
                m == out@.len(),
                ov == strings_view(out@),
                p <= m,
                xc@ == x@,
                forall|k: int| 0 <= k < p ==> lex_lt(#[trigger] ov[k], x@),
            ensures
                p <= m,
                forall|k: int| 0 <= k < p ==> lex_lt(#[trigger] ov[k], x@),
                dup ==> p < m && ov[p as int] == x@,
                !dup && p < m ==> lex_lt(x@, ov[p as int]),
            decreases m - p,
        {
            let oc = chars_of(out[p].as_str());
            match lex_order(&oc, &xc) {
                LexOrder::Before => {
                    p = p + 1;
                },
                LexOrder::Same => {
                    dup = true;
                    break;
                },
                LexOrder::After => {
                    break;
                },
            }
        }
        let ghost seen = input.subrange(0, i as int);
        let ghost seen2 = input.subrange(0, i + 1);
        proof {
            assert(seen2 =~= seen.push(x@));
            assert(input[i as int] == x@);
        }
        if dup {
            proof {
                assert(ov.to_set().contains(x@));
                assert(seen2.to_set() =~= seen.to_set().insert(x@)) by {
                    assert forall|y: Seq<char>| #[trigger] seen2.contains(y) <==> seen.contains(y) || y == x@ by {
                        if seen2.contains(y) {
                            let k = choose|k: int| 0 <= k < seen2.len() && seen2[k] == y;
                            if k < seen.len() {
                                assert(seen[k] == y);
                            }
                        }
                        if seen.contains(y) {
                            let k = choose|k: int| 0 <= k < seen.len() && seen[k] == y;
                            assert(seen2[k] == y);
                        }
                        if y == x@ {
                            assert(seen2[i as int] == y);
                        }
                    }
                }
                assert(ov.to_set() =~= seen2.to_set());
            }
        } else {
            out.insert(p, x);
            proof {
                let nv = strings_view(out@);
                assert(nv =~= ov.insert(p as int, x@));
                assert forall|a: int, b: int| 0 <= a < b < nv.len() implies lex_lt(
                    #[trigger] nv[a],
                    #[trigger] nv[b],
                ) by {
                    if b < p {
                        assert(nv[a] == ov[a] && nv[b] == ov[b]);
                    } else if b == p {
                        assert(nv[a] == ov[a]);
                    } else if a < p {
                        assert(nv[a] == ov[a] && nv[b] == ov[b - 1]);
                        lemma_lex_transitive(ov[a], x@, ov[p as int]);
                        if b - 1 > p {
                            lemma_lex_transitive(ov[a], ov[p as int], ov[b - 1]);
                        }
                    } else if a == p {
                        assert(nv[b] == ov[b - 1]);
                        if b - 1 > p {
                            lemma_lex_transitive(x@, ov[p as int], ov[b - 1]);
                        }
                    } else {
                        assert(nv[a] == ov[a - 1] && nv[b] == ov[b - 1]);
                    }
                }
                assert forall|y: Seq<char>| #[trigger] nv.contains(y) <==> seen2.contains(y) by {
                    if nv.contains(y) {
                        let k = choose|k: int| 0 <= k < nv.len() && nv[k] == y;
                        if k < p {
                            assert(ov[k] == y);
                            assert(ov.to_set().contains(y));
                            assert(seen.to_set().contains(y));
                            let q = choose|q: int| 0 <= q < seen.len() && seen[q] == y;
                            assert(seen2[q] == y);
                        } else if k == p {
                            assert(seen2[i as int] == y);
                        } else {
                            assert(ov[k - 1] == y);
                            assert(ov.to_set().contains(y));
                            assert(seen.to_set().contains(y));
                            let q = choose|q: int| 0 <= q < seen.len() && seen[q] == y;
                            assert(seen2[q] == y);
                        }
                    }
                    if seen2.contains(y) {
                        let k = choose|k: int| 0 <= k < seen2.len() && seen2[k] == y;
                        if k < i {
                            assert(seen[k] == y);
                            assert(seen.to_set().contains(y));
                            assert(ov.to_set().contains(y));
                            let q = choose|q: int| 0 <= q < ov.len() && ov[q] == y;
                            if q < p {
                                assert(nv[q] == y);
                            } else {
                                assert(nv[q + 1] == y);
                            }
                        } else {
                            assert(nv[p as int] == y);
                        }
                    }
                }
                assert(nv.to_set() =~= seen2.to_set());
            }
        }
        i = i + 1;
    }
    assert(input.subrange(0, n as int) =~= input);
    out
}

// ---------------------------------------------------------------------------
// Discovery de-duplication
// ---------------------------------------------------------------------------
/// How a device's address is assigned.
#[derive(Clone, Copy, PartialEq, Eq, Structural, Debug)]
pub enum AddressKind {
    BrEdr,
    LePublic,
    LeRandom,
}

/// What identifies one advertising device during discovery: its address
/// kind, its name and its (normalized) service UUIDs.
#[derive(Debug, PartialEq, Eq)]
pub struct Fingerprint {
    pub kind: AddressKind,
    pub name: String,
    pub uuids: Option<Vec<String>>,
}

pub type FingerprintV = (AddressKind, Seq<char>, Option<Seq<Seq<char>>>);

pub open spec fn fingerprint_view(f: Fingerprint) -> FingerprintV {
    (
        f.kind,
        f.name@,
        match f.uuids {
            Some(u) => Some(strings_view(u@)),
            None => None,
        },
    )
}

/// Build the fingerprint of a device; its UUID list is normalized.
pub fn fingerprint(kind: AddressKind, name: String, uuids: Option<Vec<String>>) -> (f: Fingerprint)
    ensures
        f.kind == kind,
        f.name@ == name@,
        match uuids {
            None => f.uuids is None,
            Some(u) => f.uuids matches Some(out) && normalized(strings_view(u@), strings_view(out@)),
        },
{
    Fingerprint { kind, name, uuids: normalize_uuids(uuids) }
}

fn strings_eq(a: &Vec<String>, b: &Vec<String>) -> (r: bool)
    ensures
        r == (strings_view(a@) == strings_view(b@)),
{
    let n = a.len();
    if n != b.len() {
        return false;
    }
    let mut i: usize = 0;
    while i < n
        invariant
            n == a@.len(),
            n == b@.len(),
            i <= n,
            forall|k: int| 0 <= k < i ==> a@[k]@ == b@[k]@,
        decreases n - i,
    {
        if a[i] != b[i] {
            assert(strings_view(a@)[i as int] != strings_view(b@)[i as int]);
            return false;
        }
        i = i + 1;
    }
    assert(strings_view(a@) =~= strings_view(b@));
    true
}

fn fingerprint_eq(a: &Fingerprint, b: &Fingerprint) -> (r: bool)
    ensures
        r == (fingerprint_view(*a) == fingerprint_view(*b)),
{
    if a.kind != b.kind || a.name != b.name {
        return false;
    }
    match (&a.uuids, &b.uuids) {
        (None, None) => true,
        (Some(x), Some(y)) => strings_eq(x, y),
        _ => false,
    }
}

/// The fingerprints seen so far in one discovery session.
pub struct DiscoveryLog {
    seen: Vec<Fingerprint>,
}

pub open spec fn no_repeats(s: Seq<FingerprintV>) -> bool {
    forall|i: int, j: int| 0 <= i < j < s.len() ==> #[trigger] s[i] != #[trigger] s[j]
}

/// `HashSet::insert`: a new fingerprint is added and reported as new.
pub open spec fn record_spec(seen: Seq<FingerprintV>, f: FingerprintV) -> (Seq<FingerprintV>, bool) {
    if seen.contains(f) {
        (seen, false)
    } else {
        (seen.push(f), true)
    }
}

/// A scanned device is kept when its name is a MeshCore name and its fingerprint is new.
pub open spec fn admit_spec(seen: Seq<FingerprintV>, f: FingerprintV) -> (Seq<FingerprintV>, bool) {
    if !meshcore_name(f.1) {
        (seen, false)
    } else {
        record_spec(seen, f)
    }
}

impl View for DiscoveryLog {
    type V = Seq<FingerprintV>;

    closed spec fn view(&self) -> Seq<FingerprintV> {
        self.seen@.map_values(|f: Fingerprint| fingerprint_view(f))
    }
}

impl DiscoveryLog {
    pub fn new() -> (d: DiscoveryLog)
        ensures
            d@ == Seq::<FingerprintV>::empty(),
    {
        let d = DiscoveryLog { seen: Vec::new() };
        assert(d@ =~= Seq::<FingerprintV>::empty());
        d
    }

    /// Remember `f`; returns whether it had not been seen before.
    pub fn record(&mut self, f: Fingerprint) -> (is_new: bool)
        ensures
            (final(self)@, is_new) == record_spec(old(self)@, fingerprint_view(f)),
    {
        let ghost before = self@;
        let ghost fv = fingerprint_view(f);
        let n = self.seen.len();
        let mut i: usize = 0;
        while i < n
            invariant
                n == self.seen@.len(),
                before == self@,
                i <= n,
                fv == fingerprint_view(f),
                forall|k: int| 0 <= k < i ==> before[k] != fv,
            decreases n - i,
        {
            if fingerprint_eq(&self.seen[i], &f) {
                assert(before[i as int] == fv);
                assert(before.contains(fv));
                return false;
            }
            i = i + 1;
        }
        assert(!before.contains(fv));
        self.seen.push(f);
        assert(self@ =~= before.push(fv));
        true
    }

    /// Keep a device found by a scan: MeshCore name and not seen before.
    pub fn admit_scanned(&mut self, f: Fingerprint) -> (keep: bool)
        ensures
            (final(self)@, keep) == admit_spec(old(self)@, fingerprint_view(f)),
    {
        if !is_meshcore_name(f.name.as_str()) {
            return false;
        }
        self.record(f)
    }
}

/// Recording never stores a fingerprint twice.
pub proof fn lemma_record_no_repeats(seen: Seq<FingerprintV>, f: FingerprintV)
    requires
        no_repeats(seen),
    ensures
        no_repeats(record_spec(seen, f).0),
        record_spec(seen, f).0.contains(f),
        record_spec(record_spec(seen, f).0, f) == (record_spec(seen, f).0, false),
{
    let r = record_spec(seen, f).0;
    if !seen.contains(f) {
        assert(r[seen.len() as int] == f);
        assert forall|i: int, j: int| 0 <= i < j < r.len() implies #[trigger] r[i] != #[trigger] r[j] by {
            if j == seen.len() {
                assert(r[i] == seen[i]);
            } else {
                assert(r[i] == seen[i] && r[j] == seen[j]);
            }
        }
    }
    assert(r.contains(f)) by {
        if seen.contains(f) {
        } else {
            assert(r[seen.len() as int] == f);
        }
    }
}

/// The log after offering each fingerprint of a discovery session in turn,
/// and which offers were reported as new.
pub open spec fn record_all(seen: Seq<FingerprintV>, fs: Seq<FingerprintV>) -> (Seq<FingerprintV>, Seq<bool>)
    decreases fs.len(),
{
    if fs.len() == 0 {
        (seen, Seq::empty())
    } else {
        let (log, flags) = record_all(seen, fs.drop_last());
        let (log2, is_new) = record_spec(log, fs.last());
        (log2, flags.push(is_new))
    }
}

/// Over a whole session, an offer is reported new exactly when its
/// fingerprint was neither in the log at the start nor offered earlier; so
/// the devices reported (and forwarded to the UI) are pairwise distinct.
pub proof fn lemma_record_all(seen: Seq<FingerprintV>, fs: Seq<FingerprintV>)
    ensures
        record_all(seen, fs).1.len() == fs.len(),
        forall|i: int|
            0 <= i < fs.len() ==> (#[trigger] record_all(seen, fs).1[i] <==> (!seen.contains(fs[i])
                && forall|k: int| 0 <= k < i ==> fs[k] != fs[i])),
        forall|x: FingerprintV|
            #[trigger] record_all(seen, fs).0.contains(x) <==> seen.contains(x) || fs.contains(x),
        forall|i: int, j: int|
            0 <= i < j < fs.len() && record_all(seen, fs).1[i] && record_all(seen, fs).1[j] ==> fs[i]
                != fs[j],
    decreases fs.len(),
{
    if fs.len() > 0 {
        let pre = fs.drop_last();
        lemma_record_all(seen, pre);
        let (log, flags) = record_all(seen, pre);
        let f = fs.last();
        let n = fs.len() - 1;
        let r = record_all(seen, fs);
        assert forall|x: FingerprintV| #[trigger] r.0.contains(x) <==> seen.contains(x) || fs.contains(x) by {
            if log.contains(x) {
                let k = choose|k: int| 0 <= k < log.len() && log[k] == x;
                assert(r.0[k] == x);
            }
            if r.0.contains(x) {
                let k = choose|k: int| 0 <= k < r.0.len() && r.0[k] == x;
                if k < log.len() {
                    assert(log[k] == x);
                    assert(log.contains(x));
                    if !seen.contains(x) {
                        assert(pre.contains(x));
                        let q = choose|q: int| 0 <= q < pre.len() && pre[q] == x;
                        assert(fs[q] == x);
                    }
                } else {
                    assert(fs[n] == x);
                }
            }
            if seen.contains(x) {
                assert(log.contains(x));
            }
            if fs.contains(x) {
                let k = choose|k: int| 0 <= k < fs.len() && fs[k] == x;
                if k < n {
                    assert(pre[k] == x);
                    assert(pre.contains(x));
                    assert(log.contains(x));
                } else if !log.contains(f) {
                    assert(r.0[log.len() as int] == x);
                }
            }
        }
        assert forall|i: int| 0 <= i < fs.len() implies (#[trigger] r.1[i] <==> (!seen.contains(fs[i])
            && forall|k: int| 0 <= k < i ==> fs[k] != fs[i])) by {
            if i < n {
                assert(r.1[i] == flags[i]);
                assert(fs[i] == pre[i]);
                assert forall|k: int| 0 <= k < i implies fs[k] == pre[k] by {}
            } else {
                if log.contains(f) {
                    if !seen.contains(f) {
                        assert(pre.contains(f));
                        let k = choose|k: int| 0 <= k < pre.len() && pre[k] == f;
                        assert(fs[k] == fs[i]);
                    }
                } else {
                    assert forall|k: int| 0 <= k < i implies fs[k] != fs[i] by {
                        if fs[k] == fs[i] {
                            assert(pre[k] == f);
                            assert(pre.contains(f));
                        }
                    }
                }
            }
        }
    }
}

} // verus!
