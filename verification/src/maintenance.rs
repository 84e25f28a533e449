//! Maintenance cost data per make and model, and the table that owns it.
//!
//! A [`MaintenanceCostData`] holds two cumulative cost curves for one make
//! and model: one indexed by distance (in tens of thousands of units), one by
//! elapsed years.  A [`MaintenanceCostDatabase`] maps the normalized
//! make/model key — the lowercase make and model joined by an underscore —
//! to that data; its mathematical view is the key-value [`Map`] it encodes.

use vstd::prelude::*;
use vstd::string::*;

use crate::curve::{
    incr_cost, interpolate_cost, points_wf, value_at, value_at_r, MaintenanceDataPoint,
};
use crate::rational::{
    lemma_q_eq_trans, lemma_q_le_congr, lemma_q_ops_wf, lemma_q_sign, lemma_q_sub_congr,
    lemma_q_zero_sign, ndiv, nsub, q_div, q_eq, q_int, q_le, q_sub, q_wf, q_zero, Q, Rat,
};

verus! {

/// Lowercase folding as the standard library performs it; the result is a
/// function of the characters alone.
pub uninterp spec fn lower_of(s: Seq<char>) -> Seq<char>;

/// A seven-bit character.
pub open spec fn is_ascii_char(c: char) -> bool {
    (c as u32) < 128
}

/// Text made only of seven-bit characters.
pub open spec fn is_ascii_seq(s: Seq<char>) -> bool {
    forall|i: int| 0 <= i < s.len() ==> is_ascii_char(#[trigger] s[i])
}

/// `r` is `c` under the documented ASCII lowercase mapping: an uppercase
/// letter moves down by 32, every other character stays.
pub open spec fn ascii_lower_char(c: char, r: char) -> bool {
    if 65 <= c as u32 <= 90 {
        r as u32 == c as u32 + 32
    } else {
        r == c
    }
}

/// `t` is `s` lowered character for character under the ASCII mapping.
pub open spec fn ascii_lowered(s: Seq<char>, t: Seq<char>) -> bool {
    &&& t.len() == s.len()
    &&& forall|i: int| 0 <= i < s.len() ==> ascii_lower_char(s[i], #[trigger] t[i])
}

/// Relies on `str::to_lowercase`: the Unicode lowercase equivalent of the
/// text, depending on the characters alone.  Its documentation fixes the
/// result on ASCII text: each uppercase letter becomes the letter 32 code
/// points below it and every other character is unchanged, one for one.
#[verifier::external_body]
fn to_lower(s: &str) -> (r: String)
    ensures
        r@ == lower_of(s@),
        is_ascii_seq(s@) ==> ascii_lowered(s@, r@),
{
    s.to_lowercase()
}

/// The normalized lookup key for a make and model: both lowercased, joined
/// by an underscore.
pub open spec fn spec_key(make: Seq<char>, model: Seq<char>) -> Seq<char> {
    lower_of(make) + "_"@ + lower_of(model)
}

/// Maintenance cost data for a specific make and model: one cumulative
/// curve over distance and one over elapsed years.
#[derive(Clone, Debug)]
pub struct MaintenanceCostData {
    pub make: String,
    pub model: String,
    /// Samples whose `x` is distance in tens of thousands of units and whose
    /// `y` is the cumulative cost over that distance.
    pub by_mileage: Vec<MaintenanceDataPoint>,
    /// Samples whose `x` is elapsed years and whose `y` is the cumulative
    /// cost over those years.
    pub by_time: Vec<MaintenanceDataPoint>,
}

/// The exact mileage-range cost: guarded on the raw distances, then measured
/// on the curve in curve units (distance divided by ten thousand).
pub open spec fn mileage_cost(data: Seq<MaintenanceDataPoint>, s: Q, e: Q) -> Q {
    if data.len() == 0 || q_le(e, s) {
        q_zero()
    } else {
        let d = q_sub(
            value_at(data, q_div(e, q_int(10000))),
            value_at(data, q_div(s, q_int(10000))),
        );
        if q_le(d, q_zero()) {
            q_zero()
        } else {
            d
        }
    }
}

/// What [`MaintenanceCostData::cost_for_mileage_range`] returns.
pub open spec fn cost_mileage_r(data: Seq<MaintenanceDataPoint>, s: Rat, e: Rat) -> Option<Rat> {
    if data.len() == 0 || q_le(e@, s@) {
        Some(Rat { num: 0, den: 1 })
    } else {
        match ndiv(s, Rat { num: 10000, den: 1 }) {
            None => None,
            Some(s1) => match ndiv(e, Rat { num: 10000, den: 1 }) {
                None => None,
                Some(e1) => match value_at_r(data, s1) {
                    None => None,
                    Some(sc) => match value_at_r(data, e1) {
                        None => None,
                        Some(ec) => match nsub(ec, sc) {
                            None => None,
                            Some(d) => Some(
                                if q_le(d@, q_zero()) {
                                    Rat { num: 0, den: 1 }
                                } else {
                                    d
                                },
                            ),
                        },
                    },
                },
            },
        }
    }
}

/// What [`MaintenanceCostData::cost_for_time_range`] returns.
pub open spec fn cost_time_r(data: Seq<MaintenanceDataPoint>, s: Rat, e: Rat) -> Option<Rat> {
    if data.len() == 0 || q_le(e@, s@) {
        Some(Rat { num: 0, den: 1 })
    } else {
        match value_at_r(data, s) {
            None => None,
            Some(sc) => match value_at_r(data, e) {
                None => None,
                Some(ec) => match nsub(ec, sc) {
                    None => None,
                    Some(d) => Some(
                        if q_le(d@, q_zero()) {
                            Rat { num: 0, den: 1 }
                        } else {
                            d
                        },
                    ),
                },
            },
        }
    }
}

/// The mileage-range cost depends only on the values of its bounds; its own
/// denominator is positive whenever the curve values it reads are well
/// formed.
pub(crate) proof fn lemma_mileage_cost_congr(data: Seq<MaintenanceDataPoint>, s: Q, e: Q, s2: Q, e2: Q)
    requires
        points_wf(data),
        q_wf(s),
        q_wf(e),
        q_wf(s2),
        q_wf(e2),
        q_eq(s, s2),
        q_eq(e, e2),
        (data.len() != 0 && !q_le(e, s)) ==> q_wf(value_at(data, q_div(s, q_int(10000))))
            && q_wf(value_at(data, q_div(e, q_int(10000)))),
    ensures
        q_eq(mileage_cost(data, s, e), mileage_cost(data, s2, e2)),
        q_wf(mileage_cost(data, s, e)),
        q_wf(mileage_cost(data, s2, e2)),
{
    lemma_q_le_congr(e, e2, s, s2);
    if data.len() == 0 || q_le(e, s) {
    } else {
        let c = q_int(10000);
        lemma_q_ops_wf(s, c);
        lemma_q_ops_wf(e, c);
        lemma_q_ops_wf(s2, c);
        lemma_q_ops_wf(e2, c);
        crate::rational::lemma_q_div_congr(s, s2, c, c);
        crate::rational::lemma_q_div_congr(e, e2, c, c);
        crate::curve::lemma_value_at_congr(data, q_div(s, c), q_div(s2, c));
        crate::curve::lemma_value_at_congr(data, q_div(e, c), q_div(e2, c));
        let vs = value_at(data, q_div(s, c));
        let ve = value_at(data, q_div(e, c));
        let vs2 = value_at(data, q_div(s2, c));
        let ve2 = value_at(data, q_div(e2, c));
        lemma_q_sub_congr(ve, ve2, vs, vs2);
        lemma_q_ops_wf(ve, vs);
        lemma_q_ops_wf(ve2, vs2);
        lemma_q_sign(q_sub(ve, vs), q_sub(ve2, vs2));
        lemma_q_zero_sign(q_sub(ve, vs));
        lemma_q_zero_sign(q_sub(ve2, vs2));
    }
}

impl MaintenanceCostData {
    /// Every sample of both curves is well formed.
    pub open spec fn wf(self) -> bool {
        points_wf(self.by_mileage@) && points_wf(self.by_time@)
    }

    /// The normalized key of this record.
    pub open spec fn spec_key_of(self) -> Seq<char> {
        spec_key(self.make@, self.model@)
    }

    /// Fresh data for a make and model, with no samples yet.
    pub fn new(make: String, model: String) -> (r: MaintenanceCostData)
        ensures
            r.make == make,
            r.model == model,
            r.by_mileage@.len() == 0,
            r.by_time@.len() == 0,
            r.wf(),
    {
        MaintenanceCostData { make, model, by_mileage: Vec::new(), by_time: Vec::new() }
    }

    /// The unique key for this make and model combination.
    pub fn key(&self) -> (r: String)
        ensures
            r@ == self.spec_key_of(),
            is_ascii_seq(self.make@) ==> ascii_lowered(self.make@, lower_of(self.make@)),
            is_ascii_seq(self.model@) ==> ascii_lowered(self.model@, lower_of(self.model@)),
    {
        MaintenanceCostData::make_key(self.make.as_str(), self.model.as_str())
    }

    /// The key for a make and model: both lowercased, joined by `_`.
    pub fn make_key(make: &str, model: &str) -> (r: String)
        ensures
            r@ == spec_key(make@, model@),
            is_ascii_seq(make@) ==> ascii_lowered(make@, lower_of(make@)),
            is_ascii_seq(model@) ==> ascii_lowered(model@, lower_of(model@)),
    {
        let mut k = to_lower(make);
        k.append("_");
        let m = to_lower(model);
        k.append(m.as_str());
        k
    }

    /// The maintenance cost over a distance range, by linear interpolation
    /// on the distance curve.  Distances are raw units; the curve is sampled
    /// in tens of thousands.
    pub fn cost_for_mileage_range(&self, start_miles: Rat, end_miles: Rat) -> (r: Option<Rat>)
        requires
            self.wf(),
            start_miles.wf(),
            end_miles.wf(),
        ensures
            r == cost_mileage_r(self.by_mileage@, start_miles, end_miles),
            r matches Some(v) ==> v.wf() && v.num >= 0 && q_eq(
                v@,
                mileage_cost(self.by_mileage@, start_miles@, end_miles@),
            ) && q_wf(mileage_cost(self.by_mileage@, start_miles@, end_miles@)),
            (r is Some && self.by_mileage@.len() != 0 && !q_le(end_miles@, start_miles@)) ==> q_wf(
                value_at(self.by_mileage@, q_div(start_miles@, q_int(10000))),
            ) && q_wf(value_at(self.by_mileage@, q_div(end_miles@, q_int(10000)))),
    {
        if self.by_mileage.len() == 0 || end_miles.le(start_miles) {
            return Some(Rat::zero());
        }
        let ten_k = Rat::from_int(10000);
        let s1 = match start_miles.div(ten_k) {
            Some(v) => v,
            None => {
                return None;
            },
        };
        let e1 = match end_miles.div(ten_k) {
            Some(v) => v,
            None => {
                return None;
            },
        };
        let sc = match interpolate_cost(&self.by_mileage, s1) {
            Some(v) => v,
            None => {
                return None;
            },
        };
        let ec = match interpolate_cost(&self.by_mileage, e1) {
            Some(v) => v,
            None => {
                return None;
            },
        };
        let d = match ec.sub(sc) {
            Some(v) => v,
            None => {
                return None;
            },
        };
        proof {
            let cs = q_div(start_miles@, q_int(10000));
            let ce = q_div(end_miles@, q_int(10000));
            lemma_q_ops_wf(start_miles@, q_int(10000));
            lemma_q_ops_wf(end_miles@, q_int(10000));
            crate::curve::lemma_value_at_congr(self.by_mileage@, s1@, cs);
            crate::curve::lemma_value_at_congr(self.by_mileage@, e1@, ce);
            lemma_q_eq_trans(sc@, value_at(self.by_mileage@, s1@), value_at(self.by_mileage@, cs));
            lemma_q_eq_trans(ec@, value_at(self.by_mileage@, e1@), value_at(self.by_mileage@, ce));
            let raw = q_sub(value_at(self.by_mileage@, ce), value_at(self.by_mileage@, cs));
            lemma_q_sub_congr(ec@, value_at(self.by_mileage@, ce), sc@, value_at(
                self.by_mileage@,
                cs,
            ));
            lemma_q_ops_wf(ec@, sc@);
            lemma_q_eq_trans(d@, q_sub(ec@, sc@), raw);
            lemma_q_ops_wf(value_at(self.by_mileage@, ce), value_at(self.by_mileage@, cs));
            lemma_q_sign(d@, raw);
            lemma_q_zero_sign(d@);
            lemma_q_zero_sign(raw);
        }
        if d.le(Rat::zero()) {
            Some(Rat::zero())
        } else {
            Some(d)
        }
    }

    /// The maintenance cost over a range of years, by linear interpolation
    /// on the time curve.
    pub fn cost_for_time_range(&self, start_years: Rat, end_years: Rat) -> (r: Option<Rat>)
        requires
            self.wf(),
            start_years.wf(),
            end_years.wf(),
        ensures
            r == cost_time_r(self.by_time@, start_years, end_years),
            r matches Some(v) ==> v.wf() && v.num >= 0 && q_eq(
                v@,
                incr_cost(self.by_time@, start_years@, end_years@),
            ) && q_wf(incr_cost(self.by_time@, start_years@, end_years@)),
            (r is Some && self.by_time@.len() != 0 && !q_le(end_years@, start_years@)) ==> q_wf(
                value_at(self.by_time@, start_years@),
            ) && q_wf(value_at(self.by_time@, end_years@)),
    {
        if self.by_time.len() == 0 || end_years.le(start_years) {
            return Some(Rat::zero());
        }
        let sc = match interpolate_cost(&self.by_time, start_years) {
            Some(v) => v,
            None => {
                return None;
            },
        };
        let ec = match interpolate_cost(&self.by_time, end_years) {
            Some(v) => v,
            None => {
                return None;
            },
        };
        let d = match ec.sub(sc) {
            Some(v) => v,
            None => {
                return None;
            },
        };
        proof {
            let raw = q_sub(
                value_at(self.by_time@, end_years@),
                value_at(self.by_time@, start_years@),
            );
            lemma_q_sub_congr(ec@, value_at(self.by_time@, end_years@), sc@, value_at(
                self.by_time@,
                start_years@,
            ));
            lemma_q_ops_wf(ec@, sc@);
            lemma_q_eq_trans(d@, q_sub(ec@, sc@), raw);
            lemma_q_ops_wf(
                value_at(self.by_time@, end_years@),
                value_at(self.by_time@, start_years@),
            );
            lemma_q_sign(d@, raw);
            lemma_q_zero_sign(d@);
            lemma_q_zero_sign(raw);
        }
        if d.le(Rat::zero()) {
            Some(Rat::zero())
        } else {
            Some(d)
        }
    }
}

/// The key-value map encoded by an association list, later entries winning.
pub open spec fn assoc_map(s: Seq<(String, MaintenanceCostData)>) -> Map<
    Seq<char>,
    MaintenanceCostData,
>
    decreases s.len(),
{
    if s.len() == 0 {
        Map::empty()
    } else {
        assoc_map(s.drop_last()).insert(s.last().0@, s.last().1)
    }
}

/// Storage for all maintenance cost data, keyed by the normalized
/// make/model key.
#[derive(Clone, Debug)]
pub struct MaintenanceCostDatabase {
    pub data: Vec<(String, MaintenanceCostData)>,
}

impl View for MaintenanceCostDatabase {
    type V = Map<Seq<char>, MaintenanceCostData>;

    open spec fn view(&self) -> Map<Seq<char>, MaintenanceCostData> {
        assoc_map(self.data@)
    }
}

proof fn lemma_assoc_contains(s: Seq<(String, MaintenanceCostData)>, k: Seq<char>)
    ensures
        assoc_map(s).contains_key(k) <==> exists|i: int|
            0 <= i < s.len() && #[trigger] s[i].0@ == k,
    decreases s.len(),
{
    if s.len() == 0 {
    } else {
        let pre = s.drop_last();
        lemma_assoc_contains(pre, k);
        if assoc_map(s).contains_key(k) {
            if s.last().0@ == k {
                assert(s[s.len() - 1].0@ == k);
            } else {
                let i = choose|i: int| 0 <= i < pre.len() && #[trigger] pre[i].0@ == k;
                assert(s[i].0@ == k);
            }
        }
        if exists|i: int| 0 <= i < s.len() && #[trigger] s[i].0@ == k {
            let i = choose|i: int| 0 <= i < s.len() && #[trigger] s[i].0@ == k;
            if i == s.len() - 1 {
                assert(assoc_map(s).contains_key(k));
            } else {
                assert(pre[i].0@ == k);
                assert(assoc_map(pre).contains_key(k));
            }
        }
    }
}

/// Pairwise-distinct keys in the association list.
pub open spec fn keys_distinct(s: Seq<(String, MaintenanceCostData)>) -> bool {
    forall|i: int, j: int|
        0 <= i < j < s.len() ==> #[trigger] s[i].0@ != #[trigger] s[j].0@
}

proof fn lemma_assoc_get(s: Seq<(String, MaintenanceCostData)>, i: int)
    requires
        keys_distinct(s),
        0 <= i < s.len(),
    ensures
        assoc_map(s).contains_key(s[i].0@),
        assoc_map(s)[s[i].0@] == s[i].1,
    decreases s.len(),
{
    let pre = s.drop_last();
    if i == s.len() - 1 {
    } else {
        assert(keys_distinct(pre)) by {
            assert(forall|a: int, b: int|
                0 <= a < b < pre.len() ==> #[trigger] pre[a].0@ == s[a].0@ && #[trigger] pre[b].0@
                    == s[b].0@);
        }
        assert(pre[i] == s[i]);
        lemma_assoc_get(pre, i);
        assert(s[i].0@ != s.last().0@);
    }
}

proof fn lemma_assoc_push(s: Seq<(String, MaintenanceCostData)>, e: (String, MaintenanceCostData))
    ensures
        assoc_map(s.push(e)) == assoc_map(s).insert(e.0@, e.1),
{
    assert(s.push(e).drop_last() =~= s);
    assert(s.push(e).last() == e);
}

proof fn lemma_assoc_remove(s: Seq<(String, MaintenanceCostData)>, i: int)
    requires
        keys_distinct(s),
        0 <= i < s.len(),
    ensures
        assoc_map(s.remove(i)) == assoc_map(s).remove(s[i].0@),
    decreases s.len(),
{
    let pre = s.drop_last();
    assert(keys_distinct(pre)) by {
        assert(forall|a: int, b: int|
            0 <= a < b < pre.len() ==> #[trigger] pre[a].0@ == s[a].0@ && #[trigger] pre[b].0@
                == s[b].0@);
    }
    if i == s.len() - 1 {
        assert(s.remove(i) =~= pre);
        lemma_assoc_contains(pre, s[i].0@);
        assert(forall|a: int| 0 <= a < pre.len() ==> #[trigger] pre[a].0@ != s[i].0@);
        assert(!assoc_map(pre).contains_key(s[i].0@));
        assert(assoc_map(pre).remove(s[i].0@) =~= assoc_map(pre));
        assert(assoc_map(s).remove(s[i].0@) =~= assoc_map(pre).insert(s[i].0@, s[i].1).remove(
            s[i].0@,
        ));
        assert(assoc_map(pre).insert(s[i].0@, s[i].1).remove(s[i].0@) =~= assoc_map(pre).remove(
            s[i].0@,
        ));
    } else {
        assert(pre[i] == s[i]);
        lemma_assoc_remove(pre, i);
        assert(s.remove(i).drop_last() =~= pre.remove(i));
        assert(s.remove(i).last() == s.last());
        assert(s[i].0@ != s.last().0@);
        assert(assoc_map(s.remove(i)) == assoc_map(pre.remove(i)).insert(s.last().0@, s.last().1));
        assert(assoc_map(pre).remove(s[i].0@).insert(s.last().0@, s.last().1) =~= assoc_map(
            pre,
        ).insert(s.last().0@, s.last().1).remove(s[i].0@));
    }
}

impl Default for MaintenanceCostDatabase {
    /// An empty table.
    fn default() -> (r: MaintenanceCostDatabase)
        ensures
            r@ == Map::<Seq<char>, MaintenanceCostData>::empty(),
            r.wf(),
            r.data@.len() == 0,
    {
        MaintenanceCostDatabase { data: Vec::new() }
    }
}

impl MaintenanceCostDatabase {
    /// Keys are pairwise distinct and every record's curves are well formed.
    pub open spec fn wf(self) -> bool {
        keys_distinct(self.data@) && (forall|i: int|
            0 <= i < self.data@.len() ==> (#[trigger] self.data@[i].1).wf())
    }

    /// Get maintenance data for a specific make and model,
    /// case-insensitively.
    #[verifier::loop_isolation(false)]
    pub fn get(&self, make: &str, model: &str) -> (r: Option<&MaintenanceCostData>)
        requires
            self.wf(),
        ensures
            match r {
                Some(d) => self@.contains_key(spec_key(make@, model@)) && *d == self@[spec_key(
                    make@,
                    model@,
                )] && d.wf(),
                None => !self@.contains_key(spec_key(make@, model@)),
            },
    {
        let key = MaintenanceCostData::make_key(make, model);
        let mut i: usize = 0;
        while i < self.data.len()
            invariant
                0 <= i <= self.data@.len(),
                key@ == spec_key(make@, model@),
                forall|j: int| 0 <= j < i ==> #[trigger] self.data@[j].0@ != key@,
            decreases self.data@.len() - i,
        {
            if self.data[i].0 == key {
                proof {
                    lemma_assoc_get(self.data@, i as int);
                }
                return Some(&self.data[i].1);
            }
            i = i + 1;
        }
        proof {
            lemma_assoc_contains(self.data@, key@);
        }
        None
    }

    /// Set maintenance data for a specific make and model, replacing any
    /// entry under the same key.
    #[verifier::loop_isolation(false)]
    pub fn set(&mut self, data: MaintenanceCostData)
        requires
            old(self).wf(),
            data.wf(),
        ensures
            final(self)@ == old(self)@.insert(spec_key(data.make@, data.model@), data),
            final(self).wf(),
            is_ascii_seq(data.make@) ==> ascii_lowered(data.make@, lower_of(data.make@)),
            is_ascii_seq(data.model@) ==> ascii_lowered(data.model@, lower_of(data.model@)),
    {
        let key = data.key();
        let mut i: usize = 0;
        while i < self.data.len()
            invariant
                0 <= i <= self.data@.len(),
                key@ == data.spec_key_of(),
                self == old(self),
                forall|j: int| 0 <= j < i ==> #[trigger] self.data@[j].0@ != key@,
            decreases self.data@.len() - i,
        {
            if self.data[i].0 == key {
                proof {
                    lemma_assoc_remove(self.data@, i as int);
                    assert forall|j: int| 0 <= j < self.data@.len() && j != i implies (
                    #[trigger] self.data@[j].0@) != key@ by {
                        if i < j {
                            assert(self.data@[i as int].0@ != self.data@[j].0@);
                        }
                    }
                    self.data@.remove_ensures(i as int);
                }
                let ghost removed = self.data@.remove(i as int);
                self.data.remove(i);
                proof {
                    lemma_assoc_push(removed, (key, data));
                    assert(assoc_map(removed).insert(key@, data) =~= assoc_map(
                        old(self).data@,
                    ).remove(key@).insert(key@, data));
                    assert(assoc_map(old(self).data@).remove(key@).insert(key@, data)
                        =~= assoc_map(old(self).data@).insert(key@, data));
                    assert forall|a: int, b: int|
                        0 <= a < b < removed.push((key, data)).len() implies (
                    #[trigger] removed.push((key, data))[a].0@) != (#[trigger] removed.push(
                        (key, data),
                    )[b].0@) by {
                        let s0 = old(self).data@;
                        if b < removed.len() {
                            let a2: int = if a < i {
                                a
                            } else {
                                a + 1
                            };
                            let b2: int = if b < i {
                                b
                            } else {
                                b + 1
                            };
                            assert(removed[a] == s0[a2] && removed[b] == s0[b2]);
                            assert(s0[a2].0@ != s0[b2].0@);
                        } else {
                            let a2: int = if a < i {
                                a
                            } else {
                                a + 1
                            };
                            assert(removed[a] == s0[a2]);
                            assert(s0[a2].0@ != key@);
                        }
                    }
                    assert forall|j: int|
                        0 <= j < removed.push((key, data)).len() implies (#[trigger] removed.push(
                        (key, data),
                    )[j].1).wf() by {
                        let s0 = old(self).data@;
                        if j < removed.len() {
                            let j2: int = if j < i {
                                j
                            } else {
                                j + 1
                            };
                            assert(removed[j] == s0[j2]);
                            assert(s0[j2].1.wf());
                        }
                    }
                }
                self.data.push((key, data));
                return ;
            }
            i = i + 1;
        }
        proof {
            lemma_assoc_push(self.data@, (key, data));
            lemma_assoc_contains(self.data@, key@);
            assert forall|a: int, b: int|
                0 <= a < b < self.data@.push((key, data)).len() implies (
            #[trigger] self.data@.push((key, data))[a].0@) != (#[trigger] self.data@.push(
                (key, data),
            )[b].0@) by {
                if b < self.data@.len() {
                    assert(self.data@[a].0@ != self.data@[b].0@);
                } else {
                    assert(self.data@[a].0@ != key@);
                }
            }
        }
        self.data.push((key, data));
    }

    /// Remove maintenance data for a specific make and model.
    #[verifier::loop_isolation(false)]
    pub fn remove(&mut self, make: &str, model: &str)
        requires
            old(self).wf(),
        ensures
            final(self)@ == old(self)@.remove(spec_key(make@, model@)),
            final(self).wf(),
    {
        let key = MaintenanceCostData::make_key(make, model);
        let mut i: usize = 0;
        while i < self.data.len()
            invariant
                0 <= i <= self.data@.len(),
                key@ == spec_key(make@, model@),
                self == old(self),
                forall|j: int| 0 <= j < i ==> #[trigger] self.data@[j].0@ != key@,
            decreases self.data@.len() - i,
        {
            if self.data[i].0 == key {
                proof {
                    lemma_assoc_remove(self.data@, i as int);
                    self.data@.remove_ensures(i as int);
                    let rem = self.data@.remove(i as int);
                    let s0 = self.data@;
                    assert forall|a: int, b: int| 0 <= a < b < rem.len() implies (
                    #[trigger] rem[a].0@) != (#[trigger] rem[b].0@) by {
                        let a2: int = if a < i {
                            a
                        } else {
                            a + 1
                        };
                        let b2: int = if b < i {
                            b
                        } else {
                            b + 1
                        };
                        assert(rem[a] == s0[a2] && rem[b] == s0[b2]);
                        assert(s0[a2].0@ != s0[b2].0@);
                    }
                    assert forall|j: int| 0 <= j < rem.len() implies (#[trigger] rem[j].1).wf() by {
                        let j2: int = if j < i {
                            j
                        } else {
                            j + 1
                        };
                        assert(rem[j] == s0[j2]);
                        assert(s0[j2].1.wf());
                    }
                }
                self.data.remove(i);
                return ;
            }
            i = i + 1;
        }
        proof {
            lemma_assoc_contains(self.data@, key@);
            assert(self@.remove(key@) =~= self@);
        }
    }

    /// All make and model combinations that have maintenance data, in
    /// insertion order.
    #[verifier::loop_isolation(false)]
    pub fn get_all_keys(&self) -> (r: Vec<(String, String)>)
        ensures
            r@.len() == self.data@.len(),
            forall|i: int|
                0 <= i < r@.len() ==> #[trigger] r@[i].0 == self.data@[i].1.make && r@[i].1
                    == self.data@[i].1.model,
    {
        let mut out: Vec<(String, String)> = Vec::new();
        let mut i: usize = 0;
        while i < self.data.len()
            invariant
                0 <= i <= self.data@.len(),
                out@.len() == i,
                forall|j: int|
                    0 <= j < i ==> #[trigger] out@[j].0 == self.data@[j].1.make && out@[j].1
                        == self.data@[j].1.model,
            decreases self.data@.len() - i,
        {
            out.push((self.data[i].1.make.clone(), self.data[i].1.model.clone()));
            i = i + 1;
        }
        out
    }
}

} // verus!
