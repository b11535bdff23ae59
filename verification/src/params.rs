//! Vehicle parameter store: cached `PARAM_VALUE`s with change tracking,
//! named snapshots and diffs, and the 16-byte MAVLink parameter-id field.
//!
//! Parameter values are `float`s on the wire; the store keeps their IEEE-754
//! bits and never does arithmetic on them. Whether two values differ enough
//! to count as a change is decided by a comparison the caller supplies.

use vstd::prelude::*;

use vstd::utf8::{decode_utf8, encode_utf8, valid_utf8};

use crate::text::{lossy_string, utf8_lossy};
use crate::text::{chars_eq, chars_of, lemma_lex_asym, lemma_lex_irrefl, lemma_lex_total, lemma_lex_trans, lex_less, lex_lt, views};

verus! {

broadcast use vstd::string::group_string_axioms;

/// Keys in strictly increasing string order.
pub open spec fn sorted_ids(ids: Seq<Seq<char>>) -> bool {
    forall|i: int, j: int| 0 <= i < j < ids.len() ==> lex_lt(#[trigger] ids[i], #[trigger] ids[j])
}

/// Where `k` belongs among sorted `keys`: the position of the first key not
/// below it, and whether that key is `k`.
fn locate(keys: &Vec<Vec<char>>, k: &[char]) -> (r: (usize, bool))
    requires
        sorted_ids(views(keys@)),
    ensures
        r.0 <= keys@.len(),
        forall|j: int| 0 <= j < r.0 ==> lex_lt(#[trigger] keys@[j]@, k@),
        r.1 == (r.0 < keys@.len() && keys@[r.0 as int]@ == k@),
        !r.1 ==> forall|j: int| r.0 <= j < keys@.len() ==> lex_lt(k@, #[trigger] keys@[j]@),
        r.1 ==> forall|j: int| 0 <= j < keys@.len() && j != r.0 ==> #[trigger] keys@[j]@ != k@,
{
    let n = keys.len();
    let mut p: usize = 0;
    while p < n && lex_less(keys[p].as_slice(), k)
        invariant
            p <= n == keys@.len(),
            forall|j: int| 0 <= j < p ==> lex_lt(#[trigger] keys@[j]@, k@),
        decreases n - p,
    {
        p = p + 1;
    }
    let found = p < n && chars_eq(keys[p].as_slice(), k);
    proof {
        assert(forall|j: int| 0 <= j < keys@.len() ==> #[trigger] views(keys@)[j] == keys@[j]@);
        if p < n {
            if !found {
                lemma_lex_total(keys@[p as int]@, k@);
                assert forall|j: int| p <= j < keys@.len() implies lex_lt(k@, #[trigger] keys@[j]@) by {
                    if j > p {
                        assert(lex_lt(views(keys@)[p as int], views(keys@)[j]));
                        lemma_lex_trans(k@, keys@[p as int]@, keys@[j]@);
                    }
                }
            } else {
                assert forall|j: int| 0 <= j < keys@.len() && j != p implies #[trigger] keys@[j]@ != k@ by {
                    if j < p {
                        lemma_lex_irrefl(k@);
                    } else {
                        assert(lex_lt(views(keys@)[p as int], views(keys@)[j]));
                        lemma_lex_irrefl(k@);
                    }
                }
            }
        }
    }
    (p, found)
}

/// Sortedness is kept by inserting a key where it belongs.
proof fn lemma_sorted_insert(ids: Seq<Seq<char>>, q: int, k: Seq<char>)
    requires
        sorted_ids(ids),
        0 <= q <= ids.len(),
        forall|j: int| 0 <= j < q ==> lex_lt(#[trigger] ids[j], k),
        forall|j: int| q <= j < ids.len() ==> lex_lt(k, #[trigger] ids[j]),
    ensures
        sorted_ids(ids.insert(q, k)),
{
    let r = ids.insert(q, k);
    assert forall|i: int, j: int| 0 <= i < j < r.len() implies lex_lt(#[trigger] r[i], #[trigger] r[j]) by {
        if i < q && j < q {
        } else if i < q && j == q {
        } else if i < q {
            assert(r[j] == ids[j - 1]);
        } else if i == q {
            assert(r[j] == ids[j - 1]);
        } else {
            assert(r[i] == ids[i - 1] && r[j] == ids[j - 1]);
        }
    }
}

/// Removing a key keeps a sorted sequence sorted.
proof fn lemma_sorted_remove(ids: Seq<Seq<char>>, q: int)
    requires
        sorted_ids(ids),
        0 <= q < ids.len(),
    ensures
        sorted_ids(ids.remove(q)),
{
    let r = ids.remove(q);
    assert forall|i: int, j: int| 0 <= i < j < r.len() implies lex_lt(#[trigger] r[i], #[trigger] r[j]) by {
        let a = if i < q { i } else { i + 1 };
        let b = if j < q { j } else { j + 1 };
        assert(r[i] == ids[a] && r[j] == ids[b]);
    }
}

/// One cached parameter.
pub struct Param {
    pub id: String,
    /// The value's IEEE-754 `float` bits.
    pub value_bits: u32,
    /// MAV_PARAM_TYPE discriminant.
    pub ptype: u8,
    pub index: u16,
    /// Store version at the last update (for change tracking).
    pub version: u64,
}

/// Specification-level view of a [`Param`].
pub struct ParamView {
    pub id: Seq<char>,
    pub value_bits: u32,
    pub ptype: u8,
    pub index: u16,
    pub version: u64,
}

impl Param {
    pub open spec fn view(&self) -> ParamView {
        ParamView {
            id: self.id@,
            value_bits: self.value_bits,
            ptype: self.ptype,
            index: self.index,
            version: self.version,
        }
    }
}

/// View of a list of parameters.
pub open spec fn param_views(v: Seq<Param>) -> Seq<ParamView> {
    v.map_values(|p: Param| p.view())
}

/// The ids of a list of parameters.
pub open spec fn param_ids(v: Seq<ParamView>) -> Seq<Seq<char>> {
    v.map_values(|p: ParamView| p.id)
}

/// Whether `ps` holds a parameter with id `k`.
pub open spec fn has_id(ps: Seq<ParamView>, k: Seq<char>) -> bool {
    exists|i: int| 0 <= i < ps.len() && (#[trigger] ps[i]).id == k
}

/// `r` is `ps` with `p` stored: replacing the parameter with `p`'s id, or
/// inserted where its id belongs in string order.
pub open spec fn stored(ps: Seq<ParamView>, p: ParamView, r: Seq<ParamView>) -> bool {
    if has_id(ps, p.id) {
        forall|i: int| 0 <= i < ps.len() && (#[trigger] ps[i]).id == p.id ==> r == ps.update(i, p)
    } else {
        exists|q: int|
            0 <= q <= ps.len() && r == ps.insert(q, p) && (forall|j: int| 0 <= j < q ==> lex_lt(#[trigger] ps[j].id, p.id))
                && (forall|j: int| q <= j < ps.len() ==> lex_lt(p.id, #[trigger] ps[j].id))
    }
}

/// A saved snapshot: values by parameter id, in id order.
pub open spec fn snap_views(v: Seq<(String, u32)>) -> Seq<(Seq<char>, u32)> {
    v.map_values(|e: (String, u32)| (e.0@, e.1))
}

/// The ids of a snapshot.
pub open spec fn snap_ids(v: Seq<(Seq<char>, u32)>) -> Seq<Seq<char>> {
    v.map_values(|e: (Seq<char>, u32)| e.0)
}

/// View of the named snapshots.
pub open spec fn snapshots_view(v: Seq<(String, Vec<(String, u32)>)>) -> Seq<(Seq<char>, Seq<(Seq<char>, u32)>)> {
    v.map_values(|e: (String, Vec<(String, u32)>)| (e.0@, snap_views(e.1@)))
}

/// Vehicle parameter cache.
pub struct ParamStore {
    params: Vec<Param>,
    total: u16,
    version: u64,
    target_system: u8,
    target_component: u8,
    snapshots: Vec<(String, Vec<(String, u32)>)>,
}

impl ParamStore {
    /// The cached parameters, in id order.
    pub closed spec fn params(&self) -> Seq<ParamView> {
        param_views(self.params@)
    }

    /// The largest parameter count announced by the vehicle.
    pub closed spec fn announced(&self) -> u16 {
        self.total
    }

    /// The store version (bumped by every update).
    pub closed spec fn version(&self) -> u64 {
        self.version
    }

    /// The `(system, component)` parameter commands are sent to.
    pub closed spec fn target_ids(&self) -> (u8, u8) {
        (self.target_system, self.target_component)
    }

    /// The saved snapshots, in name order.
    pub closed spec fn snapshots(&self) -> Seq<(Seq<char>, Seq<(Seq<char>, u32)>)> {
        snapshots_view(self.snapshots@)
    }

    /// Parameters and snapshot names are kept in string order, each snapshot
    /// in id order, and no parameter is newer than the store version.
    pub closed spec fn wf(&self) -> bool {
        &&& sorted_ids(param_ids(self.params()))
        &&& forall|i: int| 0 <= i < self.params().len() ==> (#[trigger] self.params()[i]).version <= self.version()
        &&& sorted_ids(self.snapshots().map_values(|e: (Seq<char>, Seq<(Seq<char>, u32)>)| e.0))
        &&& forall|i: int| 0 <= i < self.snapshots().len() ==> sorted_ids(snap_ids(#[trigger] self.snapshots()[i].1))
    }

    /// An empty store targeting the PX4 autopilot (system 1, component 1).
    pub fn new() -> (s: ParamStore)
        ensures
            s.wf(),
            s.params() == Seq::<ParamView>::empty(),
            s.announced() == 0,
            s.version() == 0,
            s.target_ids() == (1u8, 1u8),
            s.snapshots() == Seq::<(Seq<char>, Seq<(Seq<char>, u32)>)>::empty(),
    {
        let s = ParamStore {
            params: Vec::new(),
            total: 0,
            version: 0,
            target_system: 1,
            target_component: 1,
            snapshots: Vec::new(),
        };
        assert(s.params() =~= Seq::<ParamView>::empty());
        assert(s.snapshots() =~= Seq::<(Seq<char>, Seq<(Seq<char>, u32)>)>::empty());
        s
    }

    /// The ids of the cached parameters, in order.
    fn id_list(&self) -> (ids: Vec<Vec<char>>)
        ensures
            views(ids@) == param_ids(self.params()),
    {
        let mut ids: Vec<Vec<char>> = Vec::new();
        let mut i: usize = 0;
        while i < self.params.len()
            invariant
                i <= self.params@.len(),
                views(ids@) == param_ids(self.params()).take(i as int),
            decreases self.params@.len() - i,
        {
            let ghost before = ids@;
            let k = chars_of(self.params[i].id.as_str());
            assert(param_ids(self.params())[i as int] == self.params@[i as int].id@);
            ids.push(k);
            assert(views(ids@) =~= views(before).push(k@));
            assert(views(ids@) =~= param_ids(self.params()).take(i + 1));
            i = i + 1;
        }
        assert(param_ids(self.params()).take(i as int) =~= param_ids(self.params()));
        ids
    }
}


/// With every parameter but the one at `w` no newer than `since`, the
/// parameters newer than `since` are exactly that one.
proof fn lemma_filter_single(r: Seq<ParamView>, w: int, since: u64)
    requires
        0 <= w < r.len(),
        r[w].version > since,
        forall|j: int| 0 <= j < r.len() && j != w ==> (#[trigger] r[j]).version <= since,
    ensures
        r.filter(|q: ParamView| q.version > since) == seq![r[w]],
    decreases r.len(),
{
    reveal(Seq::filter);
    let pred = |q: ParamView| q.version > since;
    if w == r.len() - 1 {
        lemma_filter_none(r.drop_last(), since);
        assert(r.drop_last().filter(pred) =~= Seq::<ParamView>::empty());
        assert(r.filter(pred) =~= seq![r[w]]);
    } else {
        lemma_filter_single(r.drop_last(), w, since);
        assert(r.filter(pred) =~= r.drop_last().filter(pred));
    }
}

/// With no parameter newer than `since`, none is reported.
proof fn lemma_filter_none(r: Seq<ParamView>, since: u64)
    requires
        forall|j: int| 0 <= j < r.len() ==> (#[trigger] r[j]).version <= since,
    ensures
        r.filter(|q: ParamView| q.version > since) =~= Seq::<ParamView>::empty(),
    decreases r.len(),
{
    reveal(Seq::filter);
    if r.len() > 0 {
        lemma_filter_none(r.drop_last(), since);
    }
}

impl ParamStore {
    /// Insert or update a parameter from a received `PARAM_VALUE`: the
    /// version is bumped and stamped on the parameter, and the announced
    /// count keeps its maximum.
    pub fn upsert(&mut self, id: String, value_bits: u32, ptype: u8, index: u16, count: u16)
        requires
            old(self).wf(),
            old(self).version() < u64::MAX,
        ensures
            final(self).wf(),
            final(self).version() == old(self).version() + 1,
            final(self).announced() == (if count > old(self).announced() {
                count
            } else {
                old(self).announced()
            }),
            stored(
                old(self).params(),
                ParamView { id: id@, value_bits, ptype, index, version: (old(self).version() + 1) as u64 },
                final(self).params(),
            ),
            final(self).params().filter(|q: ParamView| q.version > old(self).version()) == seq![
                ParamView { id: id@, value_bits, ptype, index, version: (old(self).version() + 1) as u64 },
            ],
            final(self).params().len() == old(self).params().len() + (if has_id(old(self).params(), id@) {
                0int
            } else {
                1int
            }),
            final(self).target_ids() == old(self).target_ids(),
            final(self).snapshots() == old(self).snapshots(),
    {
        let ghost v0 = self.version;
        self.version = self.version + 1;
        if count > self.total {
            self.total = count;
        }
        let v = self.version;
        let ids = self.id_list();
        let k = chars_of(id.as_str());
        let (q, found) = locate(&ids, k.as_slice());
        let ghost ps = self.params();
        let ghost np = ParamView { id: id@, value_bits, ptype, index, version: v };
        proof {
            assert(views(ids@).len() == ids@.len());
            assert(param_ids(ps).len() == ps.len());
            assert(ps.len() == self.params@.len());
            assert(forall|j: int| 0 <= j < ids@.len() ==> #[trigger] views(ids@)[j] == ids@[j]@);
            assert(forall|j: int| 0 <= j < ps.len() ==> #[trigger] param_ids(ps)[j] == ps[j].id);
            assert forall|j: int| 0 <= j < ps.len() implies #[trigger] ids@[j]@ == ps[j].id by {
                assert(views(ids@)[j] == param_ids(ps)[j]);
            }
        }
        let newp = Param { id, value_bits, ptype, index, version: v };
        if found {
            self.params.set(q, newp);
            proof {
                assert(self.params() =~= ps.update(q as int, np));
                assert forall|i: int| 0 <= i < ps.len() && (#[trigger] ps[i]).id == np.id implies self.params() == ps.update(i, np) by {
                    if i != q {
                        assert(ids@[i]@ != k@);
                    }
                }
                assert(param_ids(self.params()) =~= param_ids(ps));
                assert(has_id(ps, np.id)) by {
                    assert(ps[q as int].id == np.id);
                }
                assert forall|j: int| 0 <= j < self.params().len() && j != q implies (#[trigger] self.params()[j]).version <= v0 by {
                    assert(self.params()[j] == ps[j]);
                }
                lemma_filter_single(self.params(), q as int, v0);
            }
        } else {
            let ghost before = self.params@;
            self.params.insert(q, newp);
            proof {
                assert(self.params@ == before.insert(q as int, newp));
                assert(self.params() =~= ps.insert(q as int, np));
                assert(!has_id(ps, np.id)) by {
                    if has_id(ps, np.id) {
                        let i = choose|i: int| 0 <= i < ps.len() && (#[trigger] ps[i]).id == np.id;
                        if i < q {
                            assert(lex_lt(ids@[i]@, k@));
                        } else {
                            assert(lex_lt(k@, ids@[i]@));
                        }
                        lemma_lex_irrefl(k@);
                    }
                }
                assert forall|j: int| 0 <= j < q implies lex_lt(#[trigger] ps[j].id, np.id) by {
                    assert(lex_lt(ids@[j]@, k@));
                }
                assert forall|j: int| q <= j < ps.len() implies lex_lt(np.id, #[trigger] ps[j].id) by {
                    assert(lex_lt(k@, ids@[j]@));
                }
                assert(param_ids(self.params()) =~= param_ids(ps).insert(q as int, np.id));
                lemma_sorted_insert(param_ids(ps), q as int, np.id);
                assert forall|j: int| 0 <= j < self.params().len() && j != q implies (#[trigger] self.params()[j]).version <= v0 by {
                    if j < q {
                        assert(self.params()[j] == ps[j]);
                    } else {
                        assert(self.params()[j] == ps[j - 1]);
                    }
                }
                lemma_filter_single(self.params(), q as int, v0);
            }
        }
    }

    /// Apply a local set: bump the version, and if the parameter is known
    /// give it the value and the new version and return its type.
    pub fn set_local(&mut self, id: &str, value_bits: u32) -> (r: Option<u8>)
        requires
            old(self).wf(),
            old(self).version() < u64::MAX,
        ensures
            final(self).wf(),
            final(self).version() == old(self).version() + 1,
            final(self).announced() == old(self).announced(),
            final(self).target_ids() == old(self).target_ids(),
            final(self).snapshots() == old(self).snapshots(),
            has_id(old(self).params(), id@) == r.is_some(),
            !has_id(old(self).params(), id@) ==> final(self).params() == old(self).params()
                && final(self).params().filter(|q: ParamView| q.version > old(self).version())
                == Seq::<ParamView>::empty(),
            forall|i: int|
                0 <= i < old(self).params().len() && (#[trigger] old(self).params()[i]).id == id@ ==> r == Some(
                    old(self).params()[i].ptype,
                ) && final(self).params() == old(self).params().update(
                    i,
                    ParamView { value_bits, version: (old(self).version() + 1) as u64, ..old(self).params()[i] },
                ) && final(self).params().filter(|q: ParamView| q.version > old(self).version()) == seq![
                    ParamView { value_bits, version: (old(self).version() + 1) as u64, ..old(self).params()[i] },
                ],
    {
        let ghost v0 = self.version;
        self.version = self.version + 1;
        let v = self.version;
        let ids = self.id_list();
        let k = chars_of(id);
        let (q, found) = locate(&ids, k.as_slice());
        let ghost ps = self.params();
        proof {
            assert(views(ids@).len() == ids@.len());
            assert(param_ids(ps).len() == ps.len());
            assert(ps.len() == self.params@.len());
            assert(forall|j: int| 0 <= j < ids@.len() ==> #[trigger] views(ids@)[j] == ids@[j]@);
            assert(forall|j: int| 0 <= j < ps.len() ==> #[trigger] param_ids(ps)[j] == ps[j].id);
            assert forall|j: int| 0 <= j < ps.len() implies #[trigger] ids@[j]@ == ps[j].id by {
                assert(views(ids@)[j] == param_ids(ps)[j]);
            }
        }
        if found {
            let old_p = &self.params[q];
            let newp = Param {
                id: old_p.id.clone(),
                value_bits,
                ptype: old_p.ptype,
                index: old_p.index,
                version: v,
            };
            let t = old_p.ptype;
            let ghost np = ParamView { value_bits, version: v, ..ps[q as int] };
            self.params.set(q, newp);
            proof {
                assert(self.params() =~= ps.update(q as int, np));
                assert forall|j: int| 0 <= j < self.params().len() implies (#[trigger] self.params()[j]).version <= v by {
                    if j != q {
                        assert(self.params()[j] == ps[j]);
                    }
                }
                assert forall|j: int| 0 <= j < self.params().len() && j != q implies (#[trigger] self.params()[j]).version <= v0 by {
                    assert(self.params()[j] == ps[j]);
                }
                lemma_filter_single(self.params(), q as int, v0);
                assert forall|i: int| 0 <= i < ps.len() && (#[trigger] ps[i]).id == id@ implies i == q by {
                    if i != q {
                        assert(ids@[i]@ != k@);
                    }
                }
                assert(param_ids(self.params()) =~= param_ids(ps));
            }
            Some(t)
        } else {
            proof {
                lemma_filter_none(ps, v0);
                assert(!has_id(ps, id@)) by {
                    if has_id(ps, id@) {
                        let i = choose|i: int| 0 <= i < ps.len() && (#[trigger] ps[i]).id == id@;
                        if i < q {
                            assert(lex_lt(ids@[i]@, k@));
                        } else {
                            assert(lex_lt(k@, ids@[i]@));
                        }
                        lemma_lex_irrefl(k@);
                    }
                }
            }
            None
        }
    }

    /// Number of cached parameters.
    pub fn received(&self) -> (n: usize)
        ensures
            n == self.params().len(),
    {
        self.params.len()
    }

    /// The announced parameter count, or the number cached if larger (as a
    /// `u16`).
    pub fn total(&self) -> (n: u16)
        ensures
            n == (if (self.params().len() as u16) > self.announced() {
                self.params().len() as u16
            } else {
                self.announced()
            }),
    {
        let have = self.params.len() as u16;
        if have > self.total {
            have
        } else {
            self.total
        }
    }

    /// The store version.
    pub fn current_version(&self) -> (v: u64)
        ensures
            v == self.version(),
    {
        self.version
    }

    /// Set the vehicle that parameter commands go to; a zero system id is
    /// ignored.
    pub fn set_target(&mut self, system: u8, component: u8)
        ensures
            final(self).target_ids() == (if system != 0 {
                (system, component)
            } else {
                old(self).target_ids()
            }),
            final(self).params() == old(self).params(),
            final(self).announced() == old(self).announced(),
            final(self).version() == old(self).version(),
            final(self).snapshots() == old(self).snapshots(),
            old(self).wf() ==> final(self).wf(),
    {
        if system != 0 {
            self.target_system = system;
            self.target_component = component;
        }
    }

    /// The `(system, component)` parameter commands go to.
    pub fn target(&self) -> (t: (u8, u8))
        ensures
            t == self.target_ids(),
    {
        (self.target_system, self.target_component)
    }
}


/// `r` is the keyed list `s` with `v` stored under `k`: the entry for `k`
/// replaced, or a new one inserted where `k` belongs in string order.
pub open spec fn stored_keyed<V>(s: Seq<(Seq<char>, V)>, k: Seq<char>, v: V, r: Seq<(Seq<char>, V)>) -> bool {
    if exists|i: int| 0 <= i < s.len() && (#[trigger] s[i]).0 == k {
        forall|i: int| 0 <= i < s.len() && (#[trigger] s[i]).0 == k ==> r == s.update(i, (k, v))
    } else {
        exists|q: int|
            0 <= q <= s.len() && r == s.insert(q, (k, v)) && (forall|j: int| 0 <= j < q ==> lex_lt(#[trigger] s[j].0, k))
                && (forall|j: int| q <= j < s.len() ==> lex_lt(k, #[trigger] s[j].0))
    }
}

/// The values of a list of parameters, by id.
pub open spec fn values_of(ps: Seq<ParamView>) -> Seq<(Seq<char>, u32)> {
    ps.map_values(|p: ParamView| (p.id, p.value_bits))
}

/// Names of the snapshots.
pub open spec fn snapshot_names_of(v: Seq<(Seq<char>, Seq<(Seq<char>, u32)>)>) -> Seq<Seq<char>> {
    v.map_values(|e: (Seq<char>, Seq<(Seq<char>, u32)>)| e.0)
}

impl ParamStore {
    /// Parameters updated after store version `since`, in id order.
    pub fn changed_since(&self, since: u64) -> (r: Vec<Param>)
        ensures
            param_views(r@) == self.params().filter(|p: ParamView| p.version > since),
    {
        let ghost ps = self.params();
        let ghost pred = |p: ParamView| p.version > since;
        let mut out: Vec<Param> = Vec::new();
        let mut i: usize = 0;
        assert(ps.take(0).filter(pred) =~= Seq::<ParamView>::empty()) by {
            reveal(Seq::filter);
        }
        assert(param_views(out@) =~= Seq::<ParamView>::empty());
        while i < self.params.len()
            invariant
                i <= self.params@.len(),
                ps == self.params(),
                pred == (|p: ParamView| p.version > since),
                param_views(out@) == ps.take(i as int).filter(pred),
            decreases self.params@.len() - i,
        {
            let ghost t1 = ps.take(i + 1);
            assert(ps.len() == self.params@.len());
            assert(t1.len() == i + 1);
            assert(t1.drop_last() =~= ps.take(i as int));
            assert(t1.last() == self.params@[i as int].view());
            assert(t1.filter(pred) == (if pred(t1.last()) {
                t1.drop_last().filter(pred).push(t1.last())
            } else {
                t1.drop_last().filter(pred)
            })) by {
                reveal(Seq::filter);
            }
            let p = &self.params[i];
            if p.version > since {
                let ghost before = out@;
                let c = Param { id: p.id.clone(), value_bits: p.value_bits, ptype: p.ptype, index: p.index, version: p.version };
                out.push(c);
                assert(c.view() == p.view());
                assert(param_views(out@) =~= param_views(before).push(p.view()));
            }
            i = i + 1;
        }
        assert(ps.take(i as int) =~= ps);
        out
    }

    /// The names of the snapshots, in order.
    fn name_list(&self) -> (names: Vec<Vec<char>>)
        ensures
            views(names@) == snapshot_names_of(self.snapshots()),
    {
        let mut names: Vec<Vec<char>> = Vec::new();
        let mut i: usize = 0;
        while i < self.snapshots.len()
            invariant
                i <= self.snapshots@.len(),
                views(names@) == snapshot_names_of(self.snapshots()).take(i as int),
            decreases self.snapshots@.len() - i,
        {
            let ghost before = names@;
            let k = chars_of(self.snapshots[i].0.as_str());
            assert(snapshot_names_of(self.snapshots())[i as int] == self.snapshots@[i as int].0@);
            names.push(k);
            assert(views(names@) =~= views(before).push(k@));
            assert(views(names@) =~= snapshot_names_of(self.snapshots()).take(i + 1));
            i = i + 1;
        }
        assert(snapshot_names_of(self.snapshots()).take(i as int) =~= snapshot_names_of(self.snapshots()));
        names
    }

    /// The names of the saved snapshots, in order.
    pub fn snapshot_names(&self) -> (names: Vec<String>)
        ensures
            names@.map_values(|s: String| s@) == snapshot_names_of(self.snapshots()),
    {
        let mut names: Vec<String> = Vec::new();
        let mut i: usize = 0;
        while i < self.snapshots.len()
            invariant
                i <= self.snapshots@.len(),
                names@.map_values(|s: String| s@) == snapshot_names_of(self.snapshots()).take(i as int),
            decreases self.snapshots@.len() - i,
        {
            let ghost before = names@;
            let k = self.snapshots[i].0.clone();
            assert(snapshot_names_of(self.snapshots())[i as int] == self.snapshots@[i as int].0@);
            names.push(k);
            assert(names@.map_values(|s: String| s@) =~= before.map_values(|s: String| s@).push(k@));
            assert(names@.map_values(|s: String| s@) =~= snapshot_names_of(self.snapshots()).take(i + 1));
            i = i + 1;
        }
        assert(snapshot_names_of(self.snapshots()).take(i as int) =~= snapshot_names_of(self.snapshots()));
        names
    }

    /// Save the current values under `name` (replacing a snapshot of that
    /// name). Returns the number of values saved.
    pub fn save_snapshot(&mut self, name: String) -> (n: usize)
        requires
            old(self).wf(),
        ensures
            final(self).wf(),
            n == old(self).params().len(),
            stored_keyed(old(self).snapshots(), name@, values_of(old(self).params()), final(self).snapshots()),
            final(self).params() == old(self).params(),
            final(self).announced() == old(self).announced(),
            final(self).version() == old(self).version(),
            final(self).target_ids() == old(self).target_ids(),
    {
        let ghost ps = self.params();
        let mut snap: Vec<(String, u32)> = Vec::new();
        let mut i: usize = 0;
        while i < self.params.len()
            invariant
                i <= self.params@.len(),
                ps == self.params(),
                snap_views(snap@) == values_of(ps).take(i as int),
            decreases self.params@.len() - i,
        {
            let ghost before = snap@;
            let p = &self.params[i];
            let e = (p.id.clone(), p.value_bits);
            assert(values_of(ps)[i as int] == (self.params@[i as int].id@, self.params@[i as int].value_bits));
            snap.push(e);
            assert(snap_views(snap@) =~= snap_views(before).push((e.0@, e.1)));
            assert(snap_views(snap@) =~= values_of(ps).take(i + 1));
            i = i + 1;
        }
        assert(values_of(ps).take(i as int) =~= values_of(ps));
        assert(snap_ids(snap_views(snap@)) =~= param_ids(ps));
        let n = snap.len();
        let names = self.name_list();
        let k = chars_of(name.as_str());
        let (q, found) = locate(&names, k.as_slice());
        let ghost ss = self.snapshots();
        let ghost sv = snap_views(snap@);
        proof {
            assert(views(names@).len() == names@.len());
            assert(snapshot_names_of(ss).len() == ss.len());
            assert forall|j: int| 0 <= j < ss.len() implies #[trigger] names@[j]@ == ss[j].0 by {
                assert(views(names@)[j] == snapshot_names_of(ss)[j]);
            }
        }
        if found {
            self.snapshots.set(q, (name, snap));
            proof {
                assert(self.snapshots() =~= ss.update(q as int, (k@, sv)));
                assert forall|i: int| 0 <= i < ss.len() && (#[trigger] ss[i]).0 == k@ implies i == q by {
                    if i != q {
                        assert(names@[i]@ != k@);
                    }
                }
                assert(snapshot_names_of(self.snapshots()) =~= snapshot_names_of(ss));
                assert forall|i: int| 0 <= i < self.snapshots().len() implies sorted_ids(snap_ids(#[trigger] self.snapshots()[i].1)) by {
                    if i != q {
                        assert(self.snapshots()[i] == ss[i]);
                    }
                }
            }
        } else {
            self.snapshots.insert(q, (name, snap));
            proof {
                assert(self.snapshots() =~= ss.insert(q as int, (k@, sv)));
                assert(!(exists|i: int| 0 <= i < ss.len() && (#[trigger] ss[i]).0 == k@)) by {
                    if exists|i: int| 0 <= i < ss.len() && (#[trigger] ss[i]).0 == k@ {
                        let i = choose|i: int| 0 <= i < ss.len() && (#[trigger] ss[i]).0 == k@;
                        if i < q {
                            assert(lex_lt(names@[i]@, k@));
                        } else {
                            assert(lex_lt(k@, names@[i]@));
                        }
                        lemma_lex_irrefl(k@);
                    }
                }
                assert forall|j: int| 0 <= j < q implies lex_lt(#[trigger] ss[j].0, k@) by {
                    assert(lex_lt(names@[j]@, k@));
                }
                assert forall|j: int| q <= j < ss.len() implies lex_lt(k@, #[trigger] ss[j].0) by {
                    assert(lex_lt(k@, names@[j]@));
                }
                assert(snapshot_names_of(self.snapshots()) =~= snapshot_names_of(ss).insert(q as int, k@));
                lemma_sorted_insert(snapshot_names_of(ss), q as int, k@);
                assert forall|i: int| 0 <= i < self.snapshots().len() implies sorted_ids(snap_ids(#[trigger] self.snapshots()[i].1)) by {
                    if i < q {
                        assert(self.snapshots()[i] == ss[i]);
                    } else if i > q {
                        assert(self.snapshots()[i] == ss[i - 1]);
                    }
                }
            }
        }
        n
    }

    /// Delete the snapshot `name`; whether there was one.
    pub fn delete_snapshot(&mut self, name: &str) -> (deleted: bool)
        requires
            old(self).wf(),
        ensures
            final(self).wf(),
            deleted == snapshot_names_of(old(self).snapshots()).contains(name@),
            !deleted ==> final(self).snapshots() == old(self).snapshots(),
            forall|i: int|
                0 <= i < old(self).snapshots().len() && (#[trigger] old(self).snapshots()[i]).0 == name@
                    ==> final(self).snapshots() == old(self).snapshots().remove(i),
            final(self).params() == old(self).params(),
            final(self).announced() == old(self).announced(),
            final(self).version() == old(self).version(),
            final(self).target_ids() == old(self).target_ids(),
    {
        let names = self.name_list();
        let k = chars_of(name);
        let (q, found) = locate(&names, k.as_slice());
        let ghost ss = self.snapshots();
        proof {
            assert(views(names@).len() == names@.len());
            assert(snapshot_names_of(ss).len() == ss.len());
            assert forall|j: int| 0 <= j < ss.len() implies #[trigger] names@[j]@ == ss[j].0 by {
                assert(views(names@)[j] == snapshot_names_of(ss)[j]);
            }
            assert forall|j: int| 0 <= j < ss.len() implies #[trigger] snapshot_names_of(ss)[j] == ss[j].0 by {}
        }
        if found {
            let _ = self.snapshots.remove(q);
            proof {
                assert(self.snapshots() =~= ss.remove(q as int));
                assert(snapshot_names_of(ss)[q as int] == name@);
                assert forall|i: int| 0 <= i < ss.len() && (#[trigger] ss[i]).0 == name@ implies i == q by {
                    if i != q {
                        assert(names@[i]@ != k@);
                    }
                }
                assert(snapshot_names_of(self.snapshots()) =~= snapshot_names_of(ss).remove(q as int));
                lemma_sorted_remove(snapshot_names_of(ss), q as int);
                assert forall|i: int| 0 <= i < self.snapshots().len() implies sorted_ids(snap_ids(#[trigger] self.snapshots()[i].1)) by {
                    if i < q {
                        assert(self.snapshots()[i] == ss[i]);
                    } else {
                        assert(self.snapshots()[i] == ss[i + 1]);
                    }
                }
            }
            true
        } else {
            proof {
                assert forall|i: int| 0 <= i < ss.len() implies (#[trigger] ss[i]).0 != name@ by {
                    if ss[i].0 == name@ {
                        if i < q {
                            assert(lex_lt(names@[i]@, k@));
                        } else {
                            assert(lex_lt(k@, names@[i]@));
                        }
                        lemma_lex_irrefl(k@);
                    }
                }
                assert(!snapshot_names_of(ss).contains(name@)) by {
                    if snapshot_names_of(ss).contains(name@) {
                        let i = choose|i: int| 0 <= i < snapshot_names_of(ss).len() && snapshot_names_of(ss)[i] == name@;
                        if i < q {
                            assert(lex_lt(names@[i]@, k@));
                        } else {
                            assert(lex_lt(k@, names@[i]@));
                        }
                        lemma_lex_irrefl(k@);
                    }
                }
            }
            false
        }
    }
}


/// A difference between the current values and a saved snapshot.
pub struct DiffEntry {
    pub id: String,
    /// The saved value's bits.
    pub from: Option<u32>,
    /// The current value's bits.
    pub to: Option<u32>,
    /// `"changed"`, `"added"` or `"removed"`.
    pub kind: &'static str,
}

/// Specification-level view of a [`DiffEntry`].
pub struct DiffView {
    pub id: Seq<char>,
    pub from: Option<u32>,
    pub to: Option<u32>,
    pub kind: Seq<char>,
}

impl DiffEntry {
    pub open spec fn view(&self) -> DiffView {
        DiffView { id: self.id@, from: self.from, to: self.to, kind: self.kind@ }
    }
}

/// View of a list of diff entries.
pub open spec fn diff_views(v: Seq<DiffEntry>) -> Seq<DiffView> {
    v.map_values(|e: DiffEntry| e.view())
}

/// Whether the snapshot holds a value for `k`.
pub open spec fn snap_has(snap: Seq<(Seq<char>, u32)>, k: Seq<char>) -> bool {
    exists|j: int| 0 <= j < snap.len() && (#[trigger] snap[j]).0 == k
}

/// Whether the diff has an entry for `k`.
pub open spec fn diff_has(es: Seq<DiffView>, k: Seq<char>) -> bool {
    exists|m: int| 0 <= m < es.len() && (#[trigger] es[m]).id == k
}

/// A diff entry as it may stand: a changed value (known on both sides and
/// reported different by `differs`), an added parameter (not in the
/// snapshot) or a removed one (only in the snapshot).
pub open spec fn entry_ok<F: Fn(u32, u32) -> bool>(
    ps: Seq<ParamView>,
    snap: Seq<(Seq<char>, u32)>,
    e: DiffView,
    differs: F,
) -> bool {
    ||| e.kind == "changed"@ && (exists|i: int, j: int|
        0 <= i < ps.len() && 0 <= j < snap.len() && (#[trigger] ps[i]).id == e.id && (#[trigger] snap[j]).0 == e.id
            && e.from == Some(snap[j].1) && e.to == Some(ps[i].value_bits) && call_ensures(
            differs,
            (snap[j].1, ps[i].value_bits),
            true,
        ))
    ||| e.kind == "added"@ && e.from is None && !snap_has(snap, e.id) && (exists|i: int|
        0 <= i < ps.len() && (#[trigger] ps[i]).id == e.id && e.to == Some(ps[i].value_bits))
    ||| e.kind == "removed"@ && e.to is None && !has_id(ps, e.id) && (exists|j: int|
        0 <= j < snap.len() && (#[trigger] snap[j]).0 == e.id && e.from == Some(snap[j].1))
}

/// `es` is the diff of the parameters `ps` against the snapshot `snap`:
/// entries in id order, each one as [`entry_ok`] allows, with an entry for
/// every parameter missing from the snapshot, for every snapshot value whose
/// parameter is gone, and for every value `differs` reports changed.
pub open spec fn is_diff<F: Fn(u32, u32) -> bool>(
    ps: Seq<ParamView>,
    snap: Seq<(Seq<char>, u32)>,
    es: Seq<DiffView>,
    differs: F,
) -> bool {
    &&& sorted_ids(es.map_values(|e: DiffView| e.id))
    &&& forall|m: int| 0 <= m < es.len() ==> entry_ok(ps, snap, #[trigger] es[m], differs)
    &&& forall|i: int| 0 <= i < ps.len() && !snap_has(snap, (#[trigger] ps[i]).id) ==> diff_has(es, ps[i].id)
    &&& forall|j: int| 0 <= j < snap.len() && !has_id(ps, (#[trigger] snap[j]).0) ==> diff_has(es, snap[j].0)
    &&& forall|i: int, j: int|
        0 <= i < ps.len() && 0 <= j < snap.len() && (#[trigger] ps[i]).id == (#[trigger] snap[j]).0 ==> diff_has(
            es,
            ps[i].id,
        ) || call_ensures(differs, (snap[j].1, ps[i].value_bits), false)
}


/// The ids of a snapshot, as character vectors.
fn snap_id_list(snap: &Vec<(String, u32)>) -> (ids: Vec<Vec<char>>)
    ensures
        views(ids@) == snap_ids(snap_views(snap@)),
        ids@.len() == snap@.len(),
{
    let ghost sv = snap_views(snap@);
    let mut ids: Vec<Vec<char>> = Vec::new();
    let mut i: usize = 0;
    while i < snap.len()
        invariant
            i <= snap@.len(),
            sv == snap_views(snap@),
            views(ids@) == snap_ids(sv).take(i as int),
            ids@.len() == i,
        decreases snap@.len() - i,
    {
        let ghost before = ids@;
        let k = chars_of(snap[i].0.as_str());
        assert(snap_ids(sv)[i as int] == snap@[i as int].0@);
        ids.push(k);
        assert(views(ids@) =~= views(before).push(k@));
        assert(views(ids@) =~= snap_ids(sv).take(i + 1));
        i = i + 1;
    }
    assert(snap_ids(sv).take(i as int) =~= snap_ids(sv));
    ids
}

/// The ids of the entries of a diff.
pub open spec fn diff_ids(es: Seq<DiffView>) -> Seq<Seq<char>> {
    es.map_values(|e: DiffView| e.id)
}

/// The merge state of [`ParamStore::diff`] after `i` parameters and `j`
/// snapshot values.
spec fn merge_inv<F: Fn(u32, u32) -> bool>(
    ps: Seq<ParamView>,
    sv: Seq<(Seq<char>, u32)>,
    dv: Seq<DiffView>,
    differs: F,
    i: int,
    j: int,
) -> bool {
    &&& 0 <= i <= ps.len()
    &&& 0 <= j <= sv.len()
    &&& sorted_ids(diff_ids(dv))
    &&& forall|m: int| 0 <= m < dv.len() ==> entry_ok(ps, sv, #[trigger] dv[m], differs)
    &&& forall|m: int, a: int| 0 <= m < dv.len() && i <= a < ps.len() ==> lex_lt((#[trigger] dv[m]).id, (#[trigger] ps[a]).id)
    &&& forall|m: int, b: int| 0 <= m < dv.len() && j <= b < sv.len() ==> lex_lt((#[trigger] dv[m]).id, (#[trigger] sv[b]).0)
    &&& forall|a: int, b: int| 0 <= a < i && j <= b < sv.len() ==> lex_lt((#[trigger] ps[a]).id, (#[trigger] sv[b]).0)
    &&& forall|a: int, b: int| i <= a < ps.len() && 0 <= b < j ==> lex_lt((#[trigger] sv[b]).0, (#[trigger] ps[a]).id)
    &&& forall|a: int| 0 <= a < i && !snap_has(sv, (#[trigger] ps[a]).id) ==> diff_has(dv, ps[a].id)
    &&& forall|b: int| 0 <= b < j && !has_id(ps, (#[trigger] sv[b]).0) ==> diff_has(dv, sv[b].0)
    &&& forall|a: int, b: int|
        0 <= a < i && 0 <= b < j && (#[trigger] ps[a]).id == (#[trigger] sv[b]).0 ==> diff_has(dv, ps[a].id)
            || call_ensures(differs, (sv[b].1, ps[a].value_bits), false)
}

impl ParamStore {
    /// Diff the current values against the snapshot `name`: `None` when
    /// there is no such snapshot. `differs` decides whether a saved and a
    /// current value count as a change.
    pub fn diff<F: Fn(u32, u32) -> bool>(&self, name: &str, differs: F) -> (r: Option<Vec<DiffEntry>>)
        requires
            self.wf(),
            forall|a: u32, b: u32| differs.requires((a, b)),
        ensures
            r is None <==> !snapshot_names_of(self.snapshots()).contains(name@),
            forall|q: int|
                0 <= q < self.snapshots().len() && (#[trigger] self.snapshots()[q]).0 == name@ ==> r is Some && is_diff(
                    self.params(),
                    self.snapshots()[q].1,
                    diff_views(r->0@),
                    differs,
                ),
    {
        let names = self.name_list();
        let k = chars_of(name);
        let (q, found) = locate(&names, k.as_slice());
        let ghost ss = self.snapshots();
        proof {
            assert(views(names@).len() == names@.len());
            assert(snapshot_names_of(ss).len() == ss.len());
            assert forall|j: int| 0 <= j < ss.len() implies #[trigger] names@[j]@ == ss[j].0 by {
                assert(views(names@)[j] == snapshot_names_of(ss)[j]);
            }
            assert forall|j: int| 0 <= j < ss.len() implies #[trigger] snapshot_names_of(ss)[j] == ss[j].0 by {}
        }
        if !found {
            proof {
                assert forall|i: int| 0 <= i < ss.len() implies (#[trigger] ss[i]).0 != name@ by {
                    if ss[i].0 == name@ {
                        if i < q {
                            assert(lex_lt(names@[i]@, k@));
                        } else {
                            assert(lex_lt(k@, names@[i]@));
                        }
                        lemma_lex_irrefl(k@);
                    }
                }
            }
            return None;
        }
        proof {
            assert(snapshot_names_of(ss)[q as int] == name@);
            assert forall|i: int| 0 <= i < ss.len() && (#[trigger] ss[i]).0 == name@ implies i == q by {
                if i != q {
                    assert(names@[i]@ != k@);
                }
            }
        }
        let snap = &self.snapshots[q].1;
        let ghost sv = snap_views(snap@);
        let ghost ps = self.params();
        assert(sv == ss[q as int].1);
        let pids = self.id_list();
        let sids = snap_id_list(snap);
        let np = self.params.len();
        let ns = snap.len();
        proof {
            assert(ps.len() == np);
            assert(sv.len() == ns);
            assert(views(pids@).len() == pids@.len());
            assert forall|a: int| 0 <= a < np implies #[trigger] pids@[a]@ == ps[a].id by {
                assert(views(pids@)[a] == param_ids(ps)[a]);
            }
            assert forall|b: int| 0 <= b < ns implies #[trigger] sids@[b]@ == sv[b].0 by {
                assert(views(sids@)[b] == snap_ids(sv)[b]);
            }
            assert(sorted_ids(snap_ids(ss[q as int].1)));
            assert forall|a: int, b: int| 0 <= a < b < np implies lex_lt(#[trigger] ps[a].id, #[trigger] ps[b].id) by {
                assert(lex_lt(param_ids(ps)[a], param_ids(ps)[b]));
            }
            assert forall|a: int, b: int| 0 <= a < b < ns implies lex_lt(#[trigger] sv[a].0, #[trigger] sv[b].0) by {
                assert(lex_lt(snap_ids(sv)[a], snap_ids(sv)[b]));
            }
        }
        let mut out: Vec<DiffEntry> = Vec::new();
        let mut i: usize = 0;
        let mut j: usize = 0;
        assert(diff_views(out@) =~= Seq::<DiffView>::empty());
        assert(diff_ids(diff_views(out@)) =~= Seq::<Seq<char>>::empty());
        while i < np || j < ns
            invariant
                np == ps.len() == self.params@.len() == pids@.len(),
                ns == sv.len() == snap@.len() == sids@.len(),
                ps == self.params(),
                sv == snap_views(snap@),
                forall|a: int| 0 <= a < np ==> #[trigger] pids@[a]@ == ps[a].id,
                forall|b: int| 0 <= b < ns ==> #[trigger] sids@[b]@ == sv[b].0,
                forall|a: int, b: int| 0 <= a < b < np ==> lex_lt(#[trigger] ps[a].id, #[trigger] ps[b].id),
                forall|a: int, b: int| 0 <= a < b < ns ==> lex_lt(#[trigger] sv[a].0, #[trigger] sv[b].0),
                forall|x: u32, y: u32| differs.requires((x, y)),
                merge_inv(ps, sv, diff_views(out@), differs, i as int, j as int),
            decreases (np - i) + (ns - j),
        {
            let ghost dv0 = diff_views(out@);
            let take_param = if j == ns {
                true
            } else if i == np {
                false
            } else {
                lex_less(pids[i].as_slice(), sids[j].as_slice())
            };
            if take_param {
                let p = &self.params[i];
                let e = DiffEntry { id: p.id.clone(), from: None, to: Some(p.value_bits), kind: "added" };
                proof {
                    lemma_take_param(ps, sv, dv0, differs, i as int, j as int, e.view());
                }
                out.push(e);
                assert(diff_views(out@) =~= dv0.push(e.view()));
                i = i + 1;
            } else {
                let take_snap = if i == np {
                    true
                } else {
                    lex_less(sids[j].as_slice(), pids[i].as_slice())
                };
                if take_snap {
                    let e = DiffEntry { id: snap[j].0.clone(), from: Some(snap[j].1), to: None, kind: "removed" };
                    proof {
                        lemma_take_snap(ps, sv, dv0, differs, i as int, j as int, e.view());
                    }
                    out.push(e);
                    assert(diff_views(out@) =~= dv0.push(e.view()));
                    j = j + 1;
                } else {
                    proof {
                        lemma_lex_total_or_eq(pids@[i as int]@, sids@[j as int]@);
                    }
                    let a = snap[j].1;
                    let b = self.params[i].value_bits;
                    let changed = differs(a, b);
                    if changed {
                        let e = DiffEntry { id: self.params[i].id.clone(), from: Some(a), to: Some(b), kind: "changed" };
                        proof {
                            lemma_take_both(ps, sv, dv0, differs, i as int, j as int, true, e.view());
                        }
                        out.push(e);
                        assert(diff_views(out@) =~= dv0.push(e.view()));
                    } else {
                        proof {
                            lemma_take_both_same(ps, sv, dv0, differs, i as int, j as int);
                        }
                    }
                    i = i + 1;
                    j = j + 1;
                }
            }
        }
        proof {
            lemma_merge_done(ps, sv, diff_views(out@), differs);
        }
        Some(out)
    }
}

proof fn lemma_lex_total_or_eq(a: Seq<char>, b: Seq<char>)
    requires
        !lex_lt(a, b),
        !lex_lt(b, a),
    ensures
        a == b,
{
    if a != b {
        lemma_lex_total(a, b);
    }
}


/// Entries already in a diff stay there when one is appended.
proof fn lemma_diff_has_push(dv: Seq<DiffView>, e: DiffView, k: Seq<char>)
    requires
        diff_has(dv, k),
    ensures
        diff_has(dv.push(e), k),
{
    let m = choose|m: int| 0 <= m < dv.len() && (#[trigger] dv[m]).id == k;
    assert(dv.push(e)[m] == dv[m]);
}

/// The sortedness facts the merge relies on.
spec fn merge_sorted(ps: Seq<ParamView>, sv: Seq<(Seq<char>, u32)>) -> bool {
    &&& forall|a: int, b: int| 0 <= a < b < ps.len() ==> lex_lt(#[trigger] ps[a].id, #[trigger] ps[b].id)
    &&& forall|a: int, b: int| 0 <= a < b < sv.len() ==> lex_lt(#[trigger] sv[a].0, #[trigger] sv[b].0)
}

proof fn lemma_take_param<F: Fn(u32, u32) -> bool>(
    ps: Seq<ParamView>,
    sv: Seq<(Seq<char>, u32)>,
    dv: Seq<DiffView>,
    differs: F,
    i: int,
    j: int,
    e: DiffView,
)
    requires
        merge_inv(ps, sv, dv, differs, i, j),
        merge_sorted(ps, sv),
        i < ps.len(),
        j == sv.len() || lex_lt(ps[i].id, sv[j].0),
        e == (DiffView { id: ps[i].id, from: None, to: Some(ps[i].value_bits), kind: "added"@ }),
    ensures
        merge_inv(ps, sv, dv.push(e), differs, i + 1, j),
{
    let nd = dv.push(e);
    let k = ps[i].id;
    assert forall|b: int| 0 <= b < sv.len() implies lex_lt(#[trigger] sv[b].0, k) || lex_lt(k, sv[b].0) by {
        if b > j {
            lemma_lex_trans(k, sv[j].0, sv[b].0);
        }
    }
    assert(!snap_has(sv, k)) by {
        if snap_has(sv, k) {
            let b = choose|b: int| 0 <= b < sv.len() && (#[trigger] sv[b]).0 == k;
            assert(lex_lt(sv[b].0, k) || lex_lt(k, sv[b].0));
            lemma_lex_irrefl(k);
        }
    }
    assert(entry_ok(ps, sv, e, differs)) by {
        assert(ps[i].id == e.id);
    }
    assert forall|m: int| 0 <= m < nd.len() implies entry_ok(ps, sv, #[trigger] nd[m], differs) by {
        if m < dv.len() {
            assert(nd[m] == dv[m]);
        }
    }
    assert(sorted_ids(diff_ids(nd))) by {
        assert forall|x: int, y: int| 0 <= x < y < diff_ids(nd).len() implies lex_lt(
            #[trigger] diff_ids(nd)[x],
            #[trigger] diff_ids(nd)[y],
        ) by {
            assert(diff_ids(nd)[x] == nd[x].id);
            assert(diff_ids(nd)[y] == nd[y].id);
            if y < dv.len() {
                assert(diff_ids(dv)[x] == dv[x].id && diff_ids(dv)[y] == dv[y].id);
            } else {
                assert(nd[x] == dv[x]);
                assert(lex_lt(dv[x].id, ps[i].id));
            }
        }
    }
    assert forall|m: int, a: int| 0 <= m < nd.len() && i + 1 <= a < ps.len() implies lex_lt(
        (#[trigger] nd[m]).id,
        (#[trigger] ps[a]).id,
    ) by {
        if m < dv.len() {
            assert(nd[m] == dv[m]);
        }
    }
    assert forall|m: int, b: int| 0 <= m < nd.len() && j <= b < sv.len() implies lex_lt(
        (#[trigger] nd[m]).id,
        (#[trigger] sv[b]).0,
    ) by {
        if m < dv.len() {
            assert(nd[m] == dv[m]);
        } else {
            if b > j {
                lemma_lex_trans(k, sv[j].0, sv[b].0);
            }
        }
    }
    assert forall|a: int, b: int| 0 <= a < i + 1 && j <= b < sv.len() implies lex_lt((#[trigger] ps[a]).id, (#[trigger] sv[b]).0) by {
        if a == i && b > j {
            lemma_lex_trans(k, sv[j].0, sv[b].0);
        }
    }
    assert forall|a: int| 0 <= a < i + 1 && !snap_has(sv, (#[trigger] ps[a]).id) implies diff_has(nd, ps[a].id) by {
        if a == i {
            assert(nd[dv.len() as int] == e);
        } else {
            lemma_diff_has_push(dv, e, ps[a].id);
        }
    }
    assert forall|b: int| 0 <= b < j && !has_id(ps, (#[trigger] sv[b]).0) implies diff_has(nd, sv[b].0) by {
        lemma_diff_has_push(dv, e, sv[b].0);
    }
    assert forall|a: int, b: int|
        0 <= a < i + 1 && 0 <= b < j && (#[trigger] ps[a]).id == (#[trigger] sv[b]).0 implies diff_has(nd, ps[a].id)
            || call_ensures(differs, (sv[b].1, ps[a].value_bits), false) by {
        if a == i {
            assert(lex_lt(sv[b].0, ps[i].id));
            lemma_lex_irrefl(k);
        } else if diff_has(dv, ps[a].id) {
            lemma_diff_has_push(dv, e, ps[a].id);
        }
    }
}


proof fn lemma_take_snap<F: Fn(u32, u32) -> bool>(
    ps: Seq<ParamView>,
    sv: Seq<(Seq<char>, u32)>,
    dv: Seq<DiffView>,
    differs: F,
    i: int,
    j: int,
    e: DiffView,
)
    requires
        merge_inv(ps, sv, dv, differs, i, j),
        merge_sorted(ps, sv),
        j < sv.len(),
        i == ps.len() || lex_lt(sv[j].0, ps[i].id),
        e == (DiffView { id: sv[j].0, from: Some(sv[j].1), to: None, kind: "removed"@ }),
    ensures
        merge_inv(ps, sv, dv.push(e), differs, i, j + 1),
{
    let nd = dv.push(e);
    let k = sv[j].0;
    assert forall|a: int| 0 <= a < ps.len() implies lex_lt(#[trigger] ps[a].id, k) || lex_lt(k, ps[a].id) by {
        if a > i {
            lemma_lex_trans(k, ps[i].id, ps[a].id);
        }
    }
    assert(!has_id(ps, k)) by {
        if has_id(ps, k) {
            let a = choose|a: int| 0 <= a < ps.len() && (#[trigger] ps[a]).id == k;
            assert(lex_lt(ps[a].id, k) || lex_lt(k, ps[a].id));
            lemma_lex_irrefl(k);
        }
    }
    assert(entry_ok(ps, sv, e, differs)) by {
        assert(sv[j].0 == e.id);
    }
    assert forall|m: int| 0 <= m < nd.len() implies entry_ok(ps, sv, #[trigger] nd[m], differs) by {
        if m < dv.len() {
            assert(nd[m] == dv[m]);
        }
    }
    assert(sorted_ids(diff_ids(nd))) by {
        assert forall|x: int, y: int| 0 <= x < y < diff_ids(nd).len() implies lex_lt(
            #[trigger] diff_ids(nd)[x],
            #[trigger] diff_ids(nd)[y],
        ) by {
            assert(diff_ids(nd)[x] == nd[x].id);
            assert(diff_ids(nd)[y] == nd[y].id);
            if y < dv.len() {
                assert(diff_ids(dv)[x] == dv[x].id && diff_ids(dv)[y] == dv[y].id);
            } else {
                assert(nd[x] == dv[x]);
                assert(lex_lt(dv[x].id, sv[j].0));
            }
        }
    }
    assert forall|m: int, a: int| 0 <= m < nd.len() && i <= a < ps.len() implies lex_lt(
        (#[trigger] nd[m]).id,
        (#[trigger] ps[a]).id,
    ) by {
        if m < dv.len() {
            assert(nd[m] == dv[m]);
        } else if a > i {
            lemma_lex_trans(k, ps[i].id, ps[a].id);
        }
    }
    assert forall|m: int, b: int| 0 <= m < nd.len() && j + 1 <= b < sv.len() implies lex_lt(
        (#[trigger] nd[m]).id,
        (#[trigger] sv[b]).0,
    ) by {
        if m < dv.len() {
            assert(nd[m] == dv[m]);
        }
    }
    assert forall|a: int, b: int| i <= a < ps.len() && 0 <= b < j + 1 implies lex_lt((#[trigger] sv[b]).0, (#[trigger] ps[a]).id) by {
        if b == j && a > i {
            lemma_lex_trans(k, ps[i].id, ps[a].id);
        }
    }
    assert forall|a: int| 0 <= a < i && !snap_has(sv, (#[trigger] ps[a]).id) implies diff_has(nd, ps[a].id) by {
        lemma_diff_has_push(dv, e, ps[a].id);
    }
    assert forall|b: int| 0 <= b < j + 1 && !has_id(ps, (#[trigger] sv[b]).0) implies diff_has(nd, sv[b].0) by {
        if b == j {
            assert(nd[dv.len() as int] == e);
        } else {
            lemma_diff_has_push(dv, e, sv[b].0);
        }
    }
    assert forall|a: int, b: int|
        0 <= a < i && 0 <= b < j + 1 && (#[trigger] ps[a]).id == (#[trigger] sv[b]).0 implies diff_has(nd, ps[a].id)
            || call_ensures(differs, (sv[b].1, ps[a].value_bits), false) by {
        if b == j {
            assert(lex_lt(ps[a].id, sv[j].0));
            lemma_lex_irrefl(k);
        } else if diff_has(dv, ps[a].id) {
            lemma_diff_has_push(dv, e, ps[a].id);
        }
    }
}

/// Facts shared by both outcomes of comparing a value present on both sides.
proof fn lemma_both_fronts<F: Fn(u32, u32) -> bool>(
    ps: Seq<ParamView>,
    sv: Seq<(Seq<char>, u32)>,
    dv: Seq<DiffView>,
    differs: F,
    i: int,
    j: int,
)
    requires
        merge_inv(ps, sv, dv, differs, i, j),
        merge_sorted(ps, sv),
        i < ps.len(),
        j < sv.len(),
        ps[i].id == sv[j].0,
    ensures
        forall|a: int, b: int| 0 <= a < i + 1 && j + 1 <= b < sv.len() ==> lex_lt((#[trigger] ps[a]).id, (#[trigger] sv[b]).0),
        forall|a: int, b: int| i + 1 <= a < ps.len() && 0 <= b < j + 1 ==> lex_lt((#[trigger] sv[b]).0, (#[trigger] ps[a]).id),
        forall|a: int| 0 <= a < i && (#[trigger] ps[a]).id == ps[i].id ==> false,
        forall|b: int| 0 <= b < j && (#[trigger] sv[b]).0 == ps[i].id ==> false,
{
    let k = ps[i].id;
    assert forall|a: int, b: int| 0 <= a < i + 1 && j + 1 <= b < sv.len() implies lex_lt((#[trigger] ps[a]).id, (#[trigger] sv[b]).0) by {
        if a < i {
            assert(lex_lt(ps[a].id, sv[b].0));
        } else {
            assert(lex_lt(sv[j].0, sv[b].0));
        }
    }
    assert forall|a: int, b: int| i + 1 <= a < ps.len() && 0 <= b < j + 1 implies lex_lt((#[trigger] sv[b]).0, (#[trigger] ps[a]).id) by {
        if b < j {
            assert(lex_lt(sv[b].0, ps[a].id));
        } else {
            assert(lex_lt(ps[i].id, ps[a].id));
        }
    }
    assert forall|a: int| 0 <= a < i && (#[trigger] ps[a]).id == ps[i].id implies false by {
        assert(lex_lt(ps[a].id, ps[i].id));
        lemma_lex_irrefl(k);
    }
    assert forall|b: int| 0 <= b < j && (#[trigger] sv[b]).0 == ps[i].id implies false by {
        assert(lex_lt(sv[b].0, sv[j].0));
        lemma_lex_irrefl(k);
    }
}

proof fn lemma_take_both<F: Fn(u32, u32) -> bool>(
    ps: Seq<ParamView>,
    sv: Seq<(Seq<char>, u32)>,
    dv: Seq<DiffView>,
    differs: F,
    i: int,
    j: int,
    changed: bool,
    e: DiffView,
)
    requires
        merge_inv(ps, sv, dv, differs, i, j),
        merge_sorted(ps, sv),
        i < ps.len(),
        j < sv.len(),
        ps[i].id == sv[j].0,
        changed,
        call_ensures(differs, (sv[j].1, ps[i].value_bits), changed),
        e == (DiffView { id: ps[i].id, from: Some(sv[j].1), to: Some(ps[i].value_bits), kind: "changed"@ }),
    ensures
        merge_inv(ps, sv, dv.push(e), differs, i + 1, j + 1),
{
    lemma_both_fronts(ps, sv, dv, differs, i, j);
    let nd = dv.push(e);
    let k = ps[i].id;
    assert(entry_ok(ps, sv, e, differs)) by {
        assert(ps[i].id == e.id && sv[j].0 == e.id);
    }
    assert forall|m: int| 0 <= m < nd.len() implies entry_ok(ps, sv, #[trigger] nd[m], differs) by {
        if m < dv.len() {
            assert(nd[m] == dv[m]);
        }
    }
    assert(sorted_ids(diff_ids(nd))) by {
        assert forall|x: int, y: int| 0 <= x < y < diff_ids(nd).len() implies lex_lt(
            #[trigger] diff_ids(nd)[x],
            #[trigger] diff_ids(nd)[y],
        ) by {
            assert(diff_ids(nd)[x] == nd[x].id);
            assert(diff_ids(nd)[y] == nd[y].id);
            if y < dv.len() {
                assert(diff_ids(dv)[x] == dv[x].id && diff_ids(dv)[y] == dv[y].id);
            } else {
                assert(nd[x] == dv[x]);
                assert(lex_lt(dv[x].id, ps[i].id));
            }
        }
    }
    assert forall|m: int, a: int| 0 <= m < nd.len() && i + 1 <= a < ps.len() implies lex_lt(
        (#[trigger] nd[m]).id,
        (#[trigger] ps[a]).id,
    ) by {
        if m < dv.len() {
            assert(nd[m] == dv[m]);
        } else {
            assert(lex_lt(ps[i].id, ps[a].id));
        }
    }
    assert forall|m: int, b: int| 0 <= m < nd.len() && j + 1 <= b < sv.len() implies lex_lt(
        (#[trigger] nd[m]).id,
        (#[trigger] sv[b]).0,
    ) by {
        if m < dv.len() {
            assert(nd[m] == dv[m]);
        } else {
            assert(lex_lt(sv[j].0, sv[b].0));
        }
    }
    assert forall|a: int| 0 <= a < i + 1 && !snap_has(sv, (#[trigger] ps[a]).id) implies diff_has(nd, ps[a].id) by {
        if a == i {
            assert(sv[j].0 == ps[i].id);
        } else {
            lemma_diff_has_push(dv, e, ps[a].id);
        }
    }
    assert forall|b: int| 0 <= b < j + 1 && !has_id(ps, (#[trigger] sv[b]).0) implies diff_has(nd, sv[b].0) by {
        if b == j {
            assert(ps[i].id == sv[j].0);
        } else {
            lemma_diff_has_push(dv, e, sv[b].0);
        }
    }
    assert forall|a: int, b: int|
        0 <= a < i + 1 && 0 <= b < j + 1 && (#[trigger] ps[a]).id == (#[trigger] sv[b]).0 implies diff_has(nd, ps[a].id)
            || call_ensures(differs, (sv[b].1, ps[a].value_bits), false) by {
        if a == i || b == j {
            assert(nd[dv.len() as int] == e);
            if a == i && b < j {
                assert(false);
            }
            if a < i && b == j {
                assert(false);
            }
        } else if diff_has(dv, ps[a].id) {
            lemma_diff_has_push(dv, e, ps[a].id);
        }
    }
}

proof fn lemma_take_both_same<F: Fn(u32, u32) -> bool>(
    ps: Seq<ParamView>,
    sv: Seq<(Seq<char>, u32)>,
    dv: Seq<DiffView>,
    differs: F,
    i: int,
    j: int,
)
    requires
        merge_inv(ps, sv, dv, differs, i, j),
        merge_sorted(ps, sv),
        i < ps.len(),
        j < sv.len(),
        ps[i].id == sv[j].0,
        call_ensures(differs, (sv[j].1, ps[i].value_bits), false),
    ensures
        merge_inv(ps, sv, dv, differs, i + 1, j + 1),
{
    lemma_both_fronts(ps, sv, dv, differs, i, j);
    assert forall|m: int, a: int| 0 <= m < dv.len() && i + 1 <= a < ps.len() implies lex_lt(
        (#[trigger] dv[m]).id,
        (#[trigger] ps[a]).id,
    ) by {}
    assert forall|a: int| 0 <= a < i + 1 && !snap_has(sv, (#[trigger] ps[a]).id) implies diff_has(dv, ps[a].id) by {
        if a == i {
            assert(sv[j].0 == ps[i].id);
        }
    }
    assert forall|b: int| 0 <= b < j + 1 && !has_id(ps, (#[trigger] sv[b]).0) implies diff_has(dv, sv[b].0) by {
        if b == j {
            assert(ps[i].id == sv[j].0);
        }
    }
    assert forall|a: int, b: int|
        0 <= a < i + 1 && 0 <= b < j + 1 && (#[trigger] ps[a]).id == (#[trigger] sv[b]).0 implies diff_has(dv, ps[a].id)
            || call_ensures(differs, (sv[b].1, ps[a].value_bits), false) by {
        if a == i && b < j {
            assert(false);
        }
        if a < i && b == j {
            assert(false);
        }
    }
}

proof fn lemma_merge_done<F: Fn(u32, u32) -> bool>(
    ps: Seq<ParamView>,
    sv: Seq<(Seq<char>, u32)>,
    dv: Seq<DiffView>,
    differs: F,
)
    requires
        merge_inv(ps, sv, dv, differs, ps.len() as int, sv.len() as int),
    ensures
        is_diff(ps, sv, dv, differs),
{
    assert(diff_ids(dv) == dv.map_values(|e: DiffView| e.id));
}


/// The 16-byte MAVLink id field holding `bytes`: the first 16 bytes, padded
/// with NULs.
pub open spec fn id_field(bytes: Seq<u8>) -> Seq<u8> {
    Seq::new(16, |i: int| if i < bytes.len() { bytes[i] } else { 0u8 })
}

/// Index of the first NUL in `raw`, or its length.
pub open spec fn nul_end(raw: Seq<u8>) -> int
    decreases raw.len(),
{
    if raw.len() == 0 {
        0
    } else if raw[0] == 0 {
        0
    } else {
        1 + nul_end(raw.drop_first())
    }
}

proof fn lemma_nul_end(raw: Seq<u8>)
    ensures
        0 <= nul_end(raw) <= raw.len(),
        forall|i: int| 0 <= i < nul_end(raw) ==> raw[i] != 0,
        nul_end(raw) < raw.len() ==> raw[nul_end(raw)] == 0,
    decreases raw.len(),
{
    if raw.len() > 0 && raw[0] != 0 {
        lemma_nul_end(raw.drop_first());
        assert forall|i: int| 0 <= i < nul_end(raw) implies raw[i] != 0 by {
            if i > 0 {
                assert(raw[i] == raw.drop_first()[i - 1]);
            }
        }
    }
}

/// Encode a parameter id into the fixed 16-byte MAVLink field (longer ids
/// are cut at 16 bytes).
pub fn encode_id(id: &str) -> (out: [u8; 16])
    ensures
        out@ == id_field(encode_utf8(id@)),
{
    let b = id.as_bytes();
    let mut out = [0u8; 16];
    let mut i: usize = 0;
    while i < 16 && i < b.len()
        invariant
            i <= 16,
            i <= b@.len(),
            b@ == encode_utf8(id@),
            out@.len() == 16,
            forall|k: int| 0 <= k < 16 ==> #[trigger] out@[k] == (if k < i { b@[k] } else { 0u8 }),
        decreases 16 - i,
    {
        out[i] = b[i];
        i = i + 1;
    }
    assert(out@ =~= id_field(b@));
    out
}

/// Decode a 16-byte MAVLink id field (NUL-padded) into a string.
pub fn decode_id(raw: &[u8; 16]) -> (s: String)
    ensures
        s@ == utf8_lossy(raw@.take(nul_end(raw@))),
        valid_utf8(raw@.take(nul_end(raw@))) ==> s@ == decode_utf8(raw@.take(nul_end(raw@))),
{
    let mut end: usize = 0;
    proof {
        lemma_nul_end(raw@);
    }
    while end < 16 && raw[end] != 0
        invariant
            end <= 16,
            raw@.len() == 16,
            end <= nul_end(raw@),
            forall|i: int| 0 <= i < nul_end(raw@) ==> raw@[i] != 0,
            nul_end(raw@) < 16 ==> raw@[nul_end(raw@)] == 0,
            nul_end(raw@) <= 16,
        decreases 16 - end,
    {
        end = end + 1;
    }
    let head = vstd::slice::slice_subrange(raw.as_slice(), 0, end);
    assert(head@ =~= raw@.take(nul_end(raw@)));
    lossy_string(head)
}

/// Law: an id of at most 16 bytes without NULs is read back from its field
/// exactly: the field's bytes up to the first NUL are the id's bytes.
pub proof fn lemma_id_roundtrip(bytes: Seq<u8>)
    requires
        bytes.len() <= 16,
        forall|i: int| 0 <= i < bytes.len() ==> bytes[i] != 0,
    ensures
        id_field(bytes).take(nul_end(id_field(bytes))) == bytes,
{
    let f = id_field(bytes);
    lemma_nul_end(f);
    let n = nul_end(f);
    if n < bytes.len() {
        assert(f[n] == bytes[n]);
    }
    if n > bytes.len() {
        assert(f[bytes.len() as int] == 0);
    }
    assert(f.take(n) =~= bytes);
}


/// Law: storing a parameter keeps the list in id order, makes it readable
/// under its id, and keeps every parameter with another id as it was.
pub proof fn lemma_stored_read_back(ps: Seq<ParamView>, p: ParamView, r: Seq<ParamView>)
    requires
        sorted_ids(param_ids(ps)),
        stored(ps, p, r),
    ensures
        sorted_ids(param_ids(r)),
        exists|i: int| 0 <= i < r.len() && r[i] == p,
        forall|i: int| 0 <= i < ps.len() && (#[trigger] ps[i]).id != p.id ==> exists|j: int| 0 <= j < r.len() && r[j] == ps[i],
        forall|j: int| 0 <= j < r.len() && (#[trigger] r[j]).id != p.id ==> exists|i: int| 0 <= i < ps.len() && ps[i] == r[j],
{
    if has_id(ps, p.id) {
        let q = choose|i: int| 0 <= i < ps.len() && (#[trigger] ps[i]).id == p.id;
        assert(r == ps.update(q, p));
        assert(r[q] == p);
        assert(param_ids(r) =~= param_ids(ps).update(q, p.id));
        assert(param_ids(ps)[q] == p.id);
        assert(param_ids(r) =~= param_ids(ps));
        assert forall|i: int| 0 <= i < ps.len() && (#[trigger] ps[i]).id != p.id implies exists|j: int|
            0 <= j < r.len() && r[j] == ps[i] by {
            assert(i != q);
            assert(r[i] == ps[i]);
        }
        assert forall|j: int| 0 <= j < r.len() && (#[trigger] r[j]).id != p.id implies exists|i: int|
            0 <= i < ps.len() && ps[i] == r[j] by {
            assert(j != q);
            assert(r[j] == ps[j]);
        }
    } else {
        let q = choose|q: int|
            0 <= q <= ps.len() && r == ps.insert(q, p) && (forall|j: int| 0 <= j < q ==> lex_lt(#[trigger] ps[j].id, p.id))
                && (forall|j: int| q <= j < ps.len() ==> lex_lt(p.id, #[trigger] ps[j].id));
        assert(r[q] == p);
        assert(param_ids(r) =~= param_ids(ps).insert(q, p.id));
        assert forall|j: int| 0 <= j < q implies lex_lt(#[trigger] param_ids(ps)[j], p.id) by {
            assert(lex_lt(ps[j].id, p.id));
        }
        assert forall|j: int| q <= j < param_ids(ps).len() implies lex_lt(p.id, #[trigger] param_ids(ps)[j]) by {
            assert(lex_lt(p.id, ps[j].id));
        }
        lemma_sorted_insert(param_ids(ps), q, p.id);
        assert forall|i: int| 0 <= i < ps.len() && (#[trigger] ps[i]).id != p.id implies exists|j: int|
            0 <= j < r.len() && r[j] == ps[i] by {
            if i < q {
                assert(r[i] == ps[i]);
            } else {
                assert(r[i + 1] == ps[i]);
            }
        }
        assert forall|j: int| 0 <= j < r.len() && (#[trigger] r[j]).id != p.id implies exists|i: int|
            0 <= i < ps.len() && ps[i] == r[j] by {
            if j < q {
                assert(r[j] == ps[j]);
            } else {
                assert(j != q);
                assert(r[j] == ps[j - 1]);
            }
        }
    }
}

/// The synthetic PX4-like parameter set: id, value bits (IEEE-754 `f32`)
/// and type (9 = REAL32, 6 = INT32) of each entry, in seeding order.
pub open spec fn seed_entries() -> Seq<(Seq<char>, u32, u8)> {
    seq![
        ("MC_ROLLRATE_P"@, 0x3e19999au32, 9u8), // 0.15
        ("MC_ROLLRATE_I"@, 0x3e4ccccdu32, 9u8), // 0.2
        ("MC_ROLLRATE_D"@, 0x3b449ba6u32, 9u8), // 0.003
        ("MC_PITCHRATE_P"@, 0x3e19999au32, 9u8), // 0.15
        ("MC_PITCHRATE_I"@, 0x3e4ccccdu32, 9u8), // 0.2
        ("MC_PITCHRATE_D"@, 0x3b449ba6u32, 9u8), // 0.003
        ("MC_YAWRATE_P"@, 0x3e4ccccdu32, 9u8), // 0.2
        ("MC_ROLL_P"@, 0x40d00000u32, 9u8), // 6.5
        ("MC_PITCH_P"@, 0x40d00000u32, 9u8), // 6.5
        ("MC_YAW_P"@, 0x40333333u32, 9u8), // 2.8
        ("MPC_XY_P"@, 0x3f733333u32, 9u8), // 0.95
        ("MPC_XY_VEL_P_ACC"@, 0x3fe66666u32, 9u8), // 1.8
        ("MPC_Z_P"@, 0x3f800000u32, 9u8), // 1.0
        ("MPC_Z_VEL_P_ACC"@, 0x40800000u32, 9u8), // 4.0
        ("MPC_XY_CRUISE"@, 0x40a00000u32, 9u8), // 5.0
        ("MPC_Z_VEL_MAX_UP"@, 0x40400000u32, 9u8), // 3.0
        ("MPC_Z_VEL_MAX_DN"@, 0x3fc00000u32, 9u8), // 1.5
        ("MPC_TILTMAX_AIR"@, 0x42340000u32, 9u8), // 45.0
        ("MPC_THR_HOVER"@, 0x3f000000u32, 9u8), // 0.5
        ("EKF2_GPS_CHECK"@, 0x43750000u32, 6u8), // 245.0
        ("EKF2_AID_MASK"@, 0x3f800000u32, 6u8), // 1.0
        ("EKF2_HGT_REF"@, 0x3f800000u32, 6u8), // 1.0
        ("EKF2_RNG_AID"@, 0x00000000u32, 6u8), // 0.0
        ("BAT1_N_CELLS"@, 0x40800000u32, 6u8), // 4.0
        ("BAT1_V_EMPTY"@, 0x40600000u32, 9u8), // 3.5
        ("BAT1_V_CHARGED"@, 0x40866666u32, 9u8), // 4.2
        ("BAT1_CAPACITY"@, 0x459c4000u32, 9u8), // 5000.0
        ("COM_RC_IN_MODE"@, 0x00000000u32, 6u8), // 0.0
        ("COM_DISARM_LAND"@, 0x40000000u32, 9u8), // 2.0
        ("COM_RCL_EXCEPT"@, 0x00000000u32, 6u8), // 0.0
        ("NAV_RCL_ACT"@, 0x40000000u32, 6u8), // 2.0
        ("NAV_DLL_ACT"@, 0x00000000u32, 6u8), // 0.0
        ("RTL_RETURN_ALT"@, 0x41f00000u32, 9u8), // 30.0
        ("RTL_DESCEND_ALT"@, 0x41200000u32, 9u8), // 10.0
        ("SYS_AUTOSTART"@, 0x457a1000u32, 6u8), // 4001.0
        ("SYS_MC_EST_GROUP"@, 0x40000000u32, 6u8), // 2.0
        ("PWM_MAIN_MIN"@, 0x447a0000u32, 6u8), // 1000.0
        ("PWM_MAIN_MAX"@, 0x44fa0000u32, 6u8), // 2000.0
        ("CBRK_IO_SAFETY"@, 0x00000000u32, 6u8), // 0.0
        ("SENS_BOARD_ROT"@, 0x00000000u32, 6u8), // 0.0
    ]
}

/// Ids of the synthetic parameter set, in seeding order.
pub open spec fn seed_ids() -> Seq<Seq<char>> {
    seed_entries().map_values(|e: (Seq<char>, u32, u8)| e.0)
}

/// Seed entry `k` as stored at version `v`, with index `k`.
pub open spec fn seed_param(k: int, v: u64) -> ParamView {
    ParamView {
        id: seed_entries()[k].0,
        value_bits: seed_entries()[k].1,
        ptype: seed_entries()[k].2,
        index: k as u16,
        version: v,
    }
}

/// `r` is `ps` after storing seed entries `0..n` in turn, entry `k` at
/// version `base + k + 1`.
pub open spec fn seeded(ps: Seq<ParamView>, n: nat, base: u64, r: Seq<ParamView>) -> bool
    decreases n,
{
    if n == 0 {
        r == ps
    } else {
        exists|mid: Seq<ParamView>|
            seeded(ps, (n - 1) as nat, base, mid) && #[trigger] stored(mid, seed_param(n - 1, (base + n) as u64), r)
    }
}

/// The entries of [`seed_entries`].
fn seed_table() -> (t: Vec<(&'static str, u32, u8)>)
    ensures
        t@.len() == 40,
        forall|k: int|
            0 <= k < 40 ==> ((#[trigger] t@[k]).0@, t@[k].1, t@[k].2) == seed_entries()[k],
{
    let mut t: Vec<(&'static str, u32, u8)> = Vec::new();
    t.push(("MC_ROLLRATE_P", 0x3e19999a, 9)); // 0.15
    t.push(("MC_ROLLRATE_I", 0x3e4ccccd, 9)); // 0.2
    t.push(("MC_ROLLRATE_D", 0x3b449ba6, 9)); // 0.003
    t.push(("MC_PITCHRATE_P", 0x3e19999a, 9)); // 0.15
    t.push(("MC_PITCHRATE_I", 0x3e4ccccd, 9)); // 0.2
    t.push(("MC_PITCHRATE_D", 0x3b449ba6, 9)); // 0.003
    t.push(("MC_YAWRATE_P", 0x3e4ccccd, 9)); // 0.2
    t.push(("MC_ROLL_P", 0x40d00000, 9)); // 6.5
    t.push(("MC_PITCH_P", 0x40d00000, 9)); // 6.5
    t.push(("MC_YAW_P", 0x40333333, 9)); // 2.8
    t.push(("MPC_XY_P", 0x3f733333, 9)); // 0.95
    t.push(("MPC_XY_VEL_P_ACC", 0x3fe66666, 9)); // 1.8
    t.push(("MPC_Z_P", 0x3f800000, 9)); // 1.0
    t.push(("MPC_Z_VEL_P_ACC", 0x40800000, 9)); // 4.0
    t.push(("MPC_XY_CRUISE", 0x40a00000, 9)); // 5.0
    t.push(("MPC_Z_VEL_MAX_UP", 0x40400000, 9)); // 3.0
    t.push(("MPC_Z_VEL_MAX_DN", 0x3fc00000, 9)); // 1.5
    t.push(("MPC_TILTMAX_AIR", 0x42340000, 9)); // 45.0
    t.push(("MPC_THR_HOVER", 0x3f000000, 9)); // 0.5
    t.push(("EKF2_GPS_CHECK", 0x43750000, 6)); // 245.0
    t.push(("EKF2_AID_MASK", 0x3f800000, 6)); // 1.0
    t.push(("EKF2_HGT_REF", 0x3f800000, 6)); // 1.0
    t.push(("EKF2_RNG_AID", 0x00000000, 6)); // 0.0
    t.push(("BAT1_N_CELLS", 0x40800000, 6)); // 4.0
    t.push(("BAT1_V_EMPTY", 0x40600000, 9)); // 3.5
    t.push(("BAT1_V_CHARGED", 0x40866666, 9)); // 4.2
    t.push(("BAT1_CAPACITY", 0x459c4000, 9)); // 5000.0
    t.push(("COM_RC_IN_MODE", 0x00000000, 6)); // 0.0
    t.push(("COM_DISARM_LAND", 0x40000000, 9)); // 2.0
    t.push(("COM_RCL_EXCEPT", 0x00000000, 6)); // 0.0
    t.push(("NAV_RCL_ACT", 0x40000000, 6)); // 2.0
    t.push(("NAV_DLL_ACT", 0x00000000, 6)); // 0.0
    t.push(("RTL_RETURN_ALT", 0x41f00000, 9)); // 30.0
    t.push(("RTL_DESCEND_ALT", 0x41200000, 9)); // 10.0
    t.push(("SYS_AUTOSTART", 0x457a1000, 6)); // 4001.0
    t.push(("SYS_MC_EST_GROUP", 0x40000000, 6)); // 2.0
    t.push(("PWM_MAIN_MIN", 0x447a0000, 6)); // 1000.0
    t.push(("PWM_MAIN_MAX", 0x44fa0000, 6)); // 2000.0
    t.push(("CBRK_IO_SAFETY", 0x00000000, 6)); // 0.0
    t.push(("SENS_BOARD_ROT", 0x00000000, 6)); // 0.0
    assert(t@.len() == 40);
    t
}

impl ParamStore {
    /// Seed the synthetic PX4-like parameter set (as if the vehicle had sent
    /// it: one upsert per parameter, with its index and a count of 40).
    pub fn seed_synthetic(&mut self)
        requires
            old(self).wf(),
            old(self).version() <= u64::MAX - 40,
        ensures
            final(self).wf(),
            final(self).version() == old(self).version() + 40,
            final(self).announced() == (if old(self).announced() > 40 {
                old(self).announced()
            } else {
                40u16
            }),
            seeded(old(self).params(), 40, old(self).version(), final(self).params()),
            forall|k: int| 0 <= k < 40 ==> has_id(final(self).params(), #[trigger] seed_ids()[k]),
            forall|i: int|
                0 <= i < old(self).params().len() ==> has_id(final(self).params(), (#[trigger] old(self).params()[i]).id),
            final(self).target_ids() == old(self).target_ids(),
            final(self).snapshots() == old(self).snapshots(),
    {
        let t = seed_table();
        let n = t.len();
        let mut i: usize = 0;
        while i < n
            invariant
                n == 40,
                t@.len() == 40,
                forall|k: int| 0 <= k < 40 ==> ((#[trigger] t@[k]).0@, t@[k].1, t@[k].2) == seed_entries()[k],
                i <= n,
                seeded(old(self).params(), i as nat, old(self).version(), self.params()),
                self.wf(),
                self.version() == old(self).version() + i,
                old(self).version() <= u64::MAX - 40,
                self.announced() == (if i == 0 {
                    old(self).announced()
                } else if old(self).announced() > 40 {
                    old(self).announced()
                } else {
                    40u16
                }),
                forall|k: int| 0 <= k < i ==> has_id(self.params(), #[trigger] seed_ids()[k]),
                forall|j: int|
                    0 <= j < old(self).params().len() ==> has_id(self.params(), (#[trigger] old(self).params()[j]).id),
                self.target_ids() == old(self).target_ids(),
                self.snapshots() == old(self).snapshots(),
            decreases n - i,
        {
            let (id, bits, ptype) = t[i];
            let ghost before = self.params();
            let ghost v = self.version();
            self.upsert(crate::text::owned(id), bits, ptype, i as u16, 40);
            proof {
                let p = ParamView { id: id@, value_bits: bits, ptype, index: i as u16, version: (v + 1) as u64 };
                assert(seed_ids()[i as int] == id@);
                assert(p == seed_param(i as int, (old(self).version() + i + 1) as u64));
                let n1: nat = (i + 1) as nat;
                assert((n1 - 1) as nat == i as nat);
                assert(seeded(old(self).params(), (n1 - 1) as nat, old(self).version(), before));
                assert(stored(before, seed_param(n1 - 1, (old(self).version() + n1) as u64), self.params()));
                assert(seeded(old(self).params(), n1, old(self).version(), self.params()));
                lemma_stored_read_back(before, p, self.params());
                let w = choose|w: int| 0 <= w < self.params().len() && self.params()[w] == p;
                assert(self.params()[w].id == id@);
                assert forall|k: int| 0 <= k < i + 1 implies has_id(self.params(), #[trigger] seed_ids()[k]) by {
                    if k < i {
                        let b = choose|b: int| 0 <= b < before.len() && (#[trigger] before[b]).id == seed_ids()[k];
                        if before[b].id != p.id {
                            let c = choose|c: int| 0 <= c < self.params().len() && self.params()[c] == before[b];
                            assert(self.params()[c].id == seed_ids()[k]);
                        }
                    }
                }
                assert forall|j: int|
                    0 <= j < old(self).params().len() implies has_id(self.params(), (#[trigger] old(self).params()[j]).id) by {
                    let kk = old(self).params()[j].id;
                    let b = choose|b: int| 0 <= b < before.len() && (#[trigger] before[b]).id == kk;
                    if before[b].id != p.id {
                        let c = choose|c: int| 0 <= c < self.params().len() && self.params()[c] == before[b];
                        assert(self.params()[c].id == kk);
                    }
                }
            }
            i = i + 1;
        }
    }
}


/// Law: a parameter stored at a version later than `since` is among the
/// parameters reported changed since `since`.
pub proof fn lemma_stored_is_reported_changed(ps: Seq<ParamView>, p: ParamView, r: Seq<ParamView>, since: u64)
    requires
        sorted_ids(param_ids(ps)),
        stored(ps, p, r),
        p.version > since,
    ensures
        r.filter(|q: ParamView| q.version > since).contains(p),
{
    lemma_stored_read_back(ps, p, r);
    let i = choose|i: int| 0 <= i < r.len() && r[i] == p;
    r.lemma_filter_contains(|q: ParamView| q.version > since, i);
}

/// A diff of parameters with distinct ids against their own values is empty
/// when the comparison never calls a value different from itself.
proof fn lemma_self_diff_empty<F: Fn(u32, u32) -> bool>(ps: Seq<ParamView>, es: Seq<DiffView>, differs: F)
    requires
        sorted_ids(param_ids(ps)),
        forall|a: u32| !call_ensures(differs, (a, a), true),
        is_diff(ps, values_of(ps), es, differs),
    ensures
        es.len() == 0,
{
    let snap = values_of(ps);
    if es.len() > 0 {
        reveal_strlit("changed");
        reveal_strlit("added");
        reveal_strlit("removed");
        let e = es[0];
        assert(entry_ok(ps, snap, e, differs));
        if e.kind == "changed"@ {
            assert("changed"@ != "added"@ && "changed"@ != "removed"@ && "added"@ != "removed"@) by {
                assert("changed"@[0] != "added"@[0]);
                assert("changed"@[0] != "removed"@[0]);
                assert("added"@[0] != "removed"@[0]);
            }
            let (i, j) = choose|i: int, j: int|
                0 <= i < ps.len() && 0 <= j < snap.len() && (#[trigger] ps[i]).id == e.id && (#[trigger] snap[j]).0
                    == e.id && e.from == Some(snap[j].1) && e.to == Some(ps[i].value_bits) && call_ensures(
                    differs,
                    (snap[j].1, ps[i].value_bits),
                    true,
                );
            assert(snap[j] == (ps[j].id, ps[j].value_bits));
            if i != j {
                let (a, b) = if i < j { (i, j) } else { (j, i) };
                assert(lex_lt(param_ids(ps)[a], param_ids(ps)[b]));
                lemma_lex_irrefl(e.id);
            }
            assert(!call_ensures(differs, (ps[i].value_bits, ps[i].value_bits), true));
        } else if e.kind == "added"@ {
            let i = choose|i: int| 0 <= i < ps.len() && (#[trigger] ps[i]).id == e.id && e.to == Some(ps[i].value_bits);
            assert(snap[i].0 == e.id);
        } else {
            assert(e.kind == "removed"@);
            let j = choose|j: int| 0 <= j < snap.len() && (#[trigger] snap[j]).0 == e.id && e.from == Some(snap[j].1);
            assert(ps[j].id == e.id);
        }
    }
}

/// Law: right after the current values are saved as snapshot `name`, a diff
/// against that snapshot reports nothing, when the comparison never calls a
/// value different from itself.
pub proof fn lemma_saved_snapshot_diff_empty<F: Fn(u32, u32) -> bool>(
    ps: Seq<ParamView>,
    before: Seq<(Seq<char>, Seq<(Seq<char>, u32)>)>,
    name: Seq<char>,
    after: Seq<(Seq<char>, Seq<(Seq<char>, u32)>)>,
    es: Seq<DiffView>,
    differs: F,
)
    requires
        sorted_ids(param_ids(ps)),
        stored_keyed(before, name, values_of(ps), after),
        forall|a: u32| !call_ensures(differs, (a, a), true),
        forall|q: int|
            0 <= q < after.len() && (#[trigger] after[q]).0 == name ==> is_diff(ps, after[q].1, es, differs),
    ensures
        es.len() == 0,
{
    if exists|i: int| 0 <= i < before.len() && (#[trigger] before[i]).0 == name {
        let i = choose|i: int| 0 <= i < before.len() && (#[trigger] before[i]).0 == name;
        assert(after == before.update(i, (name, values_of(ps))));
        assert(after[i].0 == name);
    } else {
        let q = choose|q: int|
            0 <= q <= before.len() && after == before.insert(q, (name, values_of(ps))) && (forall|j: int|
                0 <= j < q ==> lex_lt(#[trigger] before[j].0, name)) && (forall|j: int|
                q <= j < before.len() ==> lex_lt(name, #[trigger] before[j].0));
        assert(after[q] == (name, values_of(ps)));
    }
    lemma_self_diff_empty(ps, es, differs);
}

} // verus!
