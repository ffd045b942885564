//! Predictors and the history that they read and fill.
use vstd::prelude::*;
use crate::frame::{BodyFrame, FrameModel};
use crate::frame::data::{OwnedGFrame, OwnedHFrame, OwnedIFrame, OwnedPFrame, OwnedSFrame};
use crate::frame::event;
use crate::stream::header::{
    last_ip_field, setting_first_number, setting_number, spec_ip_names, spec_last_index,
    spec_pairs, spec_setting_first_number, spec_setting_number, Header, IPField,
};
use crate::stream::interval::PInterval;

verus! {

/// How a field's value follows from earlier values, as a header line names
/// it.
#[derive(Clone, Copy, Debug, PartialEq, Eq, Structural)]
pub enum FieldPredictor {
    /// Predicts nothing: the value is the residual.
    Zero,
    Previous,
    StraightLine,
    Average2,
    MinThrottle,
    Motor0,
    Increment,
    HomeCoordinates,
    Around1500,
    VBatRef,
    LastMainFrameTime,
    MinMotor,
}

impl Default for FieldPredictor {
    fn default() -> (r: Self)
        ensures
            r == FieldPredictor::Zero,
    {
        FieldPredictor::Zero
    }
}

/// The 64-bit two's-complement number that is congruent to `x`.
pub open spec fn spec_wrap(x: int) -> i64 {
    let low = x % 0x1_0000_0000_0000_0000;
    if low >= 0x8000_0000_0000_0000 {
        (low - 0x1_0000_0000_0000_0000) as i64
    } else {
        low as i64
    }
}

/// Numbers that differ by a multiple of 2^64 wrap to the same value.
pub proof fn lemma_wrap_congruent(x: int, k: int)
    ensures
        spec_wrap(x + k * 0x1_0000_0000_0000_0000) == spec_wrap(x),
{
    vstd::arithmetic::div_mod::lemma_mod_multiples_vanish(k, x, 0x1_0000_0000_0000_0000);
    assert(0x1_0000_0000_0000_0000 * k + x == x + k * 0x1_0000_0000_0000_0000);
}

/// A number wraps to itself plus a multiple of 2^64.
pub proof fn lemma_wrap_offset(x: int) -> (k: int)
    ensures
        spec_wrap(x) == x + k * 0x1_0000_0000_0000_0000,
{
    vstd::arithmetic::div_mod::lemma_fundamental_div_mod(x, 0x1_0000_0000_0000_0000);
    let q = x / 0x1_0000_0000_0000_0000;
    if x % 0x1_0000_0000_0000_0000 >= 0x8000_0000_0000_0000 {
        -q - 1
    } else {
        -q
    }
}

/// Wrapping a sum is the same whether or not a summand was wrapped before.
pub proof fn lemma_wrap_add(x: int, y: int)
    ensures
        spec_wrap(spec_wrap(x) + y) == spec_wrap(x + y),
{
    let k = lemma_wrap_offset(x);
    lemma_wrap_congruent(x + y, k);
    assert(x + y + k * 0x1_0000_0000_0000_0000 == spec_wrap(x) + y);
}

fn wrapping_sum(a: i64, b: i64) -> (r: i64)
    ensures
        r == spec_wrap(a + b),
{
    a.wrapping_add(b)
}

fn wrapping_difference(a: i64, b: i64) -> (r: i64)
    ensures
        r == spec_wrap(a - b),
{
    a.wrapping_sub(b)
}

/// Three generations of one record class: the values being filled and the
/// two records before them.
pub struct History {
    slot_a: Vec<i64>,
    slot_b: Vec<i64>,
    current: Vec<i64>,
    previous_in_b: bool,
}

/// What a predictor sees of a history while a frame is being decoded.
pub struct Snapshot<'a> {
    pub previous_2: &'a [i64],
    pub previous: &'a [i64],
    pub current: &'a mut Vec<i64>,
}

fn copy_values(target: &mut Vec<i64>, source: &Vec<i64>)
    requires
        old(target)@.len() == source@.len(),
    ensures
        final(target)@ == source@,
{
    let mut i: usize = 0;
    while i < source.len()
        invariant
            i <= source@.len(),
            target@.len() == source@.len(),
            forall|j: int| 0 <= j < i ==> target@[j] == source@[j],
        decreases source@.len() - i,
    {
        target.set(i, source[i]);
        i = i + 1;
    }
    assert(target@ =~= source@);
}

impl History {
    /// The record before the values being filled.
    pub closed spec fn previous(&self) -> Seq<i64> {
        if self.previous_in_b {
            self.slot_b@
        } else {
            self.slot_a@
        }
    }

    /// The record before `previous`.
    pub closed spec fn previous_2(&self) -> Seq<i64> {
        if self.previous_in_b {
            self.slot_a@
        } else {
            self.slot_b@
        }
    }

    /// The values being filled.
    pub closed spec fn current(&self) -> Seq<i64> {
        self.current@
    }

    /// The three generations have one length.
    pub closed spec fn wf(&self) -> bool {
        self.slot_a@.len() == self.current@.len() && self.slot_b@.len() == self.current@.len()
    }

    /// The number of fields of the record class.
    pub open spec fn size(&self) -> nat {
        self.current().len()
    }

    /// A history of `cap` fields, all zero.
    pub fn with_size(cap: usize) -> (r: Self)
        ensures
            r.wf(),
            r.size() == cap,
            r.current() == Seq::new(cap as nat, |i: int| 0i64),
            r.previous() == Seq::new(cap as nat, |i: int| 0i64),
            r.previous_2() == Seq::new(cap as nat, |i: int| 0i64),
    {
        let r = Self {
            slot_a: vec![0; cap],
            slot_b: vec![0; cap],
            current: vec![0; cap],
            previous_in_b: true,
        };
        assert(r.slot_a@ =~= Seq::new(cap as nat, |i: int| 0i64));
        assert(r.slot_b@ =~= Seq::new(cap as nat, |i: int| 0i64));
        assert(r.current@ =~= Seq::new(cap as nat, |i: int| 0i64));
        r
    }

    /// The last record that was completed.
    pub fn values(&self) -> (r: &[i64])
        ensures
            r@ == self.previous(),
    {
        if self.previous_in_b {
            self.slot_b.as_slice()
        } else {
            self.slot_a.as_slice()
        }
    }

    /// Lends the three generations out: the two earlier ones to read, the
    /// current one to fill. What is written through the snapshot is what the
    /// history holds afterwards.
    pub fn state(&mut self) -> (snapshot: Snapshot<'_>)
        ensures
            snapshot.previous_2@ == old(self).previous_2(),
            snapshot.previous@ == old(self).previous(),
            snapshot.current@ == old(self).current(),
            final(self).previous_2() == old(self).previous_2(),
            final(self).previous() == old(self).previous(),
            final(self).current() == final(snapshot.current)@,
            old(self).wf() && final(snapshot.current)@.len() == old(self).size()
                ==> final(self).wf(),
    {
        if self.previous_in_b {
            Snapshot {
                previous_2: self.slot_a.as_slice(),
                previous: self.slot_b.as_slice(),
                current: &mut self.current,
            }
        } else {
            Snapshot {
                previous_2: self.slot_b.as_slice(),
                previous: self.slot_a.as_slice(),
                current: &mut self.current,
            }
        }
    }

    /// Completes a record that follows on the one before: `previous` becomes
    /// `previous_2`, and the current values become `previous`.
    pub fn advance(&mut self)
        requires
            old(self).wf(),
        ensures
            final(self).wf(),
            final(self).previous() == old(self).current(),
            final(self).previous_2() == old(self).previous(),
            final(self).current() == old(self).current(),
    {
        self.previous_in_b = !self.previous_in_b;
        if self.previous_in_b {
            copy_values(&mut self.slot_b, &self.current);
        } else {
            copy_values(&mut self.slot_a, &self.current);
        }
    }

    /// Completes a record that starts anew: the current values become both
    /// `previous` and `previous_2`.
    pub fn advance_reset(&mut self)
        requires
            old(self).wf(),
        ensures
            final(self).wf(),
            final(self).previous() == old(self).current(),
            final(self).previous_2() == old(self).current(),
            final(self).current() == old(self).current(),
    {
        copy_values(&mut self.slot_a, &self.current);
        copy_values(&mut self.slot_b, &self.current);
    }
}

/// The history of GNSS records and the home position that they refer to.
pub struct GNSSHistory {
    pub gnss_home: [i64; 2],
    pub history: History,
}

impl GNSSHistory {
    /// The home position: latitude, then longitude.
    pub open spec fn home(&self) -> Seq<i64> {
        self.gnss_home@
    }

    /// A GNSS history of `cap` fields, all zero, with home at zero.
    pub fn with_size(cap: usize) -> (r: Self)
        ensures
            r.history.wf(),
            r.history.size() == cap,
            r.home() == seq![0i64, 0i64],
            r.history.current() == Seq::new(cap as nat, |i: int| 0i64),
            r.history.previous() == Seq::new(cap as nat, |i: int| 0i64),
            r.history.previous_2() == Seq::new(cap as nat, |i: int| 0i64),
    {
        let r = Self { gnss_home: [0i64; 2], history: History::with_size(cap) };
        assert(r.gnss_home@ =~= seq![0i64, 0i64]);
        r
    }
}

/// Holds of a snapshot before and after a predictor wrote `value` to field
/// `ix` of the current values and nothing else.
pub open spec fn snapshot_wrote(before: Snapshot, after: Snapshot, ix: int, value: i64) -> bool {
    &&& after.current@ == before.current@.update(ix, value)
    &&& after.previous == before.previous
    &&& after.previous_2 == before.previous_2
}

/// Predicts a constant: the value is the residual plus `base`.
#[derive(Clone, Copy, Debug)]
pub struct AddConstantPredictor {
    pub base: i64,
    pub field_ix: usize,
}

impl AddConstantPredictor {
    /// The value that the predictor gives for residual `value`.
    pub open spec fn spec_predict(self, value: i64) -> i64 {
        spec_wrap(self.base + value)
    }

    /// Writes the value for residual `value` to the predictor's field of
    /// the current record.
    pub fn predict(&self, value: i64, snapshot: &mut Snapshot<'_>)
        requires
            self.field_ix < old(snapshot).current@.len(),
        ensures
            snapshot_wrote(
                *old(snapshot),
                *final(snapshot),
                self.field_ix as int,
                self.spec_predict(value),
            ),
            *final(final(snapshot).current) == *final(old(snapshot).current),
    {
        snapshot.current.set(self.field_ix, wrapping_sum(self.base, value));
    }
}

/// Predicts the value that another field of the same record already has.
#[derive(Clone, Copy, Debug)]
pub struct AddFieldPredictor {
    pub base_field_ix: usize,
    pub field_ix: usize,
}

impl AddFieldPredictor {
    /// The value that the predictor gives for residual `value`.
    pub open spec fn spec_predict(self, value: i64, current: Seq<i64>) -> i64 {
        spec_wrap(current[self.base_field_ix as int] + value)
    }

    /// Writes the value for residual `value` to the predictor's field of
    /// the current record.
    pub fn predict(&self, value: i64, snapshot: &mut Snapshot<'_>)
        requires
            self.field_ix < old(snapshot).current@.len(),
            self.base_field_ix < old(snapshot).current@.len(),
        ensures
            snapshot_wrote(
                *old(snapshot),
                *final(snapshot),
                self.field_ix as int,
                self.spec_predict(value, old(snapshot).current@),
            ),
            *final(final(snapshot).current) == *final(old(snapshot).current),
    {
        let base: i64 = snapshot.current[self.base_field_ix];
        snapshot.current.set(self.field_ix, wrapping_sum(base, value));
    }
}

/// A predictor of intra frames.
#[derive(Clone, Copy, Debug)]
pub enum AnyIPredictor {
    AddConstant(AddConstantPredictor),
    AddField(AddFieldPredictor),
}

impl AnyIPredictor {
    /// The field that the predictor fills.
    pub open spec fn spec_field_ix(self) -> int {
        match self {
            AnyIPredictor::AddConstant(p) => p.field_ix as int,
            AnyIPredictor::AddField(p) => p.field_ix as int,
        }
    }

    /// The predictor fills field `ix` and reads no field beyond `size`.
    pub open spec fn wf(self, ix: int, size: nat) -> bool {
        &&& self.spec_field_ix() == ix
        &&& 0 <= ix < size
        &&& self matches AnyIPredictor::AddField(p) ==> p.base_field_ix < size
    }

    /// The value that the predictor gives for residual `value` when the
    /// record so far is `current`.
    pub open spec fn spec_predict(self, value: i64, current: Seq<i64>) -> i64 {
        match self {
            AnyIPredictor::AddConstant(p) => p.spec_predict(value),
            AnyIPredictor::AddField(p) => p.spec_predict(value, current),
        }
    }

    /// The predictor of intra frames that `predictor` names for field
    /// `field_ix`, if it names one and what it refers to is there: the
    /// setting `minthrottle`, `vbatref` or `motorOutput` as a number, or the
    /// field `motor[0]`.
    pub open spec fn spec_new(
        predictor: FieldPredictor,
        settings: Seq<(Seq<char>, Seq<char>)>,
        names: Seq<Seq<char>>,
        field_ix: usize,
    ) -> Option<AnyIPredictor> {
        match predictor {
            FieldPredictor::Zero => Some(
                AnyIPredictor::AddConstant(AddConstantPredictor { base: 0, field_ix }),
            ),
            FieldPredictor::Around1500 => Some(
                AnyIPredictor::AddConstant(AddConstantPredictor { base: 1500, field_ix }),
            ),
            FieldPredictor::MinThrottle => match spec_setting_number(settings, "minthrottle"@) {
                Some(base) => Some(
                    AnyIPredictor::AddConstant(AddConstantPredictor { base, field_ix }),
                ),
                None => None,
            },
            FieldPredictor::Motor0 => match spec_last_index(names, "motor[0]"@) {
                Some(ix) => Some(
                    AnyIPredictor::AddField(
                        AddFieldPredictor { base_field_ix: ix as usize, field_ix },
                    ),
                ),
                None => None,
            },
            FieldPredictor::MinMotor => match spec_setting_first_number(settings, "motorOutput"@) {
                Some(base) => Some(
                    AnyIPredictor::AddConstant(AddConstantPredictor { base, field_ix }),
                ),
                None => None,
            },
            FieldPredictor::VBatRef => match spec_setting_number(settings, "vbatref"@) {
                Some(base) => Some(
                    AnyIPredictor::AddConstant(AddConstantPredictor { base, field_ix }),
                ),
                None => None,
            },
            _ => None,
        }
    }

    /// The predictor of intra frames that `predictor` names, or nothing
    /// where it names none or refers to what is not there.
    pub fn try_new(
        predictor: FieldPredictor,
        settings: &Vec<(String, String)>,
        ip_fields: &Vec<IPField>,
        field_ix: usize,
    ) -> (r: Option<Self>)
        ensures
            r == Self::spec_new(
                predictor,
                spec_pairs(settings@),
                spec_ip_names(ip_fields@),
                field_ix,
            ),
            r matches Some(AnyIPredictor::AddField(p)) ==> p.base_field_ix < ip_fields@.len(),
            r matches Some(p) ==> p.spec_field_ix() == field_ix,
    {
        match predictor {
            FieldPredictor::Zero => Some(
                AnyIPredictor::AddConstant(AddConstantPredictor { base: 0, field_ix }),
            ),
            FieldPredictor::Around1500 => Some(
                AnyIPredictor::AddConstant(AddConstantPredictor { base: 1500, field_ix }),
            ),
            FieldPredictor::MinThrottle => match setting_number(settings, "minthrottle") {
                Some(base) => Some(
                    AnyIPredictor::AddConstant(AddConstantPredictor { base, field_ix }),
                ),
                None => None,
            },
            FieldPredictor::Motor0 => match last_ip_field(ip_fields, "motor[0]") {
                Some(ix) => Some(
                    AnyIPredictor::AddField(AddFieldPredictor { base_field_ix: ix, field_ix }),
                ),
                None => None,
            },
            FieldPredictor::MinMotor => match setting_first_number(settings, "motorOutput") {
                Some(base) => Some(
                    AnyIPredictor::AddConstant(AddConstantPredictor { base, field_ix }),
                ),
                None => None,
            },
            FieldPredictor::VBatRef => match setting_number(settings, "vbatref") {
                Some(base) => Some(
                    AnyIPredictor::AddConstant(AddConstantPredictor { base, field_ix }),
                ),
                None => None,
            },
            _ => None,
        }
    }

    /// The predictor of intra frames that `predictor` names.
    pub fn new(
        predictor: FieldPredictor,
        settings: &Vec<(String, String)>,
        ip_fields: &Vec<IPField>,
        field_ix: usize,
    ) -> (r: Self)
        requires
            Self::spec_new(
                predictor,
                spec_pairs(settings@),
                spec_ip_names(ip_fields@),
                field_ix,
            ) is Some,
        ensures
            Some(r) == Self::spec_new(
                predictor,
                spec_pairs(settings@),
                spec_ip_names(ip_fields@),
                field_ix,
            ),
    {
        match Self::try_new(predictor, settings, ip_fields, field_ix) {
            Some(r) => r,
            None => vstd::pervasive::unreached(),
        }
    }

    /// Writes the value for residual `value` to the predictor's field of
    /// the current record.
    pub fn predict(&self, value: i64, snapshot: &mut Snapshot<'_>)
        requires
            self.wf(self.spec_field_ix(), old(snapshot).current@.len()),
        ensures
            snapshot_wrote(
                *old(snapshot),
                *final(snapshot),
                self.spec_field_ix(),
                self.spec_predict(value, old(snapshot).current@),
            ),
            *final(final(snapshot).current) == *final(old(snapshot).current),
    {
        match self {
            AnyIPredictor::AddConstant(p) => p.predict(value, snapshot),
            AnyIPredictor::AddField(p) => p.predict(value, snapshot),
        }
    }
}

/// Predicts nothing: the value is the residual.
#[derive(Clone, Copy, Debug)]
pub struct NonePredictor {
    pub field_ix: usize,
}

impl NonePredictor {
    /// Writes the value for residual `value` to the predictor's field of
    /// the current record.
    pub fn predict(&mut self, value: i64, snapshot: &mut Snapshot<'_>)
        requires
            old(self).field_ix < old(snapshot).current@.len(),
        ensures
            *final(self) == *old(self),
            snapshot_wrote(*old(snapshot), *final(snapshot), old(self).field_ix as int, value),
            *final(final(snapshot).current) == *final(old(snapshot).current),
    {
        snapshot.current.set(self.field_ix, value);
    }
}

/// Predicts the field's value in the record before.
#[derive(Clone, Copy, Debug)]
pub struct PreviousPredictor {
    pub field_ix: usize,
}

impl PreviousPredictor {
    /// The value that the predictor gives for residual `value`.
    pub open spec fn spec_predict(self, value: i64, previous: Seq<i64>) -> i64 {
        spec_wrap(previous[self.field_ix as int] + value)
    }

    /// Writes the value for residual `value` to the predictor's field of
    /// the current record.
    pub fn predict(&mut self, value: i64, snapshot: &mut Snapshot<'_>)
        requires
            old(self).field_ix < old(snapshot).current@.len(),
            old(self).field_ix < old(snapshot).previous@.len(),
        ensures
            *final(self) == *old(self),
            snapshot_wrote(
                *old(snapshot),
                *final(snapshot),
                old(self).field_ix as int,
                old(self).spec_predict(value, old(snapshot).previous@),
            ),
            *final(final(snapshot).current) == *final(old(snapshot).current),
    {
        let previous: i64 = snapshot.previous[self.field_ix];
        snapshot.current.set(self.field_ix, wrapping_sum(previous, value));
    }
}

/// Predicts a counter that grows by one every `p_interval` frames.
///
/// The running sum of steps is held as a whole part and a remainder over the
/// step's denominator, so that it is exact after any number of frames.
#[derive(Clone, Copy, Debug)]
pub struct IncPredictor {
    pub field_ix: usize,
    pub step_numer: u16,
    pub step_denom: u16,
    pub whole: i64,
    pub remainder: u16,
    pub base: i64,
    pub expected_value: i64,
}

impl IncPredictor {
    /// The step has a denominator, and the remainder is below it.
    pub open spec fn wf(self) -> bool {
        self.step_denom != 0 && self.remainder < self.step_denom
    }

    /// The predictor after one frame in which the field held `found` before:
    /// where that is not the value that the predictor gave last, it starts
    /// anew from `found`; in either case the running sum goes one step on.
    pub open spec fn spec_next(self, found: i64) -> IncPredictor {
        let resync = found != self.expected_value;
        let base = if resync {
            found
        } else {
            self.base
        };
        let whole = if resync {
            0
        } else {
            self.whole
        };
        let remainder = if resync {
            0
        } else {
            self.remainder
        };
        let total = remainder + self.step_numer;
        let next_whole = spec_wrap(whole + total / (self.step_denom as int));
        IncPredictor {
            field_ix: self.field_ix,
            step_numer: self.step_numer,
            step_denom: self.step_denom,
            whole: next_whole,
            remainder: (total % (self.step_denom as int)) as u16,
            base,
            expected_value: spec_wrap(base + next_whole),
        }
    }

    /// The value that the predictor gives: the base plus the whole part of
    /// the running sum after the step.
    pub open spec fn spec_predict(self, found: i64) -> i64 {
        self.spec_next(found).expected_value
    }

    /// A predictor whose step is the reciprocal of `p_interval`.
    pub fn new(field_ix: usize, p_interval: PInterval) -> (r: Self)
        requires
            p_interval.wf(),
            p_interval.numer != 0,
        ensures
            r.wf(),
            r == (IncPredictor {
                field_ix,
                step_numer: p_interval.denom,
                step_denom: p_interval.numer,
                whole: 0,
                remainder: 0,
                base: 0,
                expected_value: 0,
            }),
    {
        let increment = p_interval.recip();
        Self {
            field_ix,
            step_numer: increment.numer,
            step_denom: increment.denom,
            whole: 0,
            remainder: 0,
            base: 0,
            expected_value: 0,
        }
    }

    /// Writes the value for residual `value` to the predictor's field of
    /// the current record.
    pub fn predict(&mut self, _value: i64, snapshot: &mut Snapshot<'_>)
        requires
            old(self).wf(),
            old(self).field_ix < old(snapshot).current@.len(),
        ensures
            final(self).wf(),
            *final(self) == old(self).spec_next(old(snapshot).current@[old(self).field_ix as int]),
            snapshot_wrote(
                *old(snapshot),
                *final(snapshot),
                old(self).field_ix as int,
                old(self).spec_predict(old(snapshot).current@[old(self).field_ix as int]),
            ),
            *final(final(snapshot).current) == *final(old(snapshot).current),
    {
        let found: i64 = snapshot.current[self.field_ix];
        if found != self.expected_value {
            self.base = found;
            self.whole = 0;
            self.remainder = 0;
        }
        let total: u32 = self.remainder as u32 + self.step_numer as u32;
        let denom: u32 = self.step_denom as u32;
        self.whole = wrapping_sum(self.whole, (total / denom) as i64);
        self.remainder = (total % denom) as u16;
        let current_value: i64 = wrapping_sum(self.base, self.whole);
        snapshot.current.set(self.field_ix, current_value);
        self.expected_value = current_value;
    }
}

/// One step of a counter that goes on from its own last value adds the
/// step to the running sum exactly: in units of the step's denominator, the
/// sum grows by the step's numerator. (Unless the whole part leaves the
/// range of `i64`, where it wraps.)
pub proof fn lemma_increment_step(p: IncPredictor)
    requires
        p.wf(),
        p.whole + (p.remainder + p.step_numer) / (p.step_denom as int) <= i64::MAX,
    ensures
        ({
            let q = p.spec_next(p.expected_value);
            &&& q.wf()
            &&& q.base == p.base
            &&& q.whole * p.step_denom + q.remainder == p.whole * p.step_denom + p.remainder
                + p.step_numer
        }),
{
    let d = p.step_denom as int;
    let total = p.remainder + p.step_numer;
    let q = p.spec_next(p.expected_value);
    vstd::arithmetic::div_mod::lemma_fundamental_div_mod(total, d);
    assert(0 <= total / d) by {
        vstd::arithmetic::div_mod::lemma_div_pos_is_pos(total, d);
    }
    assert(q.whole == p.whole + total / d);
    assert((p.whole + total / d) * d == p.whole * d + d * (total / d)) by (nonlinear_arith);
}

/// Predicts that the field goes on as from the record before last to the
/// last.
#[derive(Clone, Copy, Debug)]
pub struct StraightLinePredictor {
    pub field_ix: usize,
}

impl StraightLinePredictor {
    /// The value that the predictor gives for residual `value`.
    pub open spec fn spec_predict(self, value: i64, previous_2: Seq<i64>, previous: Seq<i64>) -> i64 {
        spec_wrap(2 * previous[self.field_ix as int] - previous_2[self.field_ix as int] + value)
    }

    /// Writes the value for residual `value` to the predictor's field of
    /// the current record.
    pub fn predict(&mut self, value: i64, snapshot: &mut Snapshot<'_>)
        requires
            old(self).field_ix < old(snapshot).current@.len(),
            old(self).field_ix < old(snapshot).previous@.len(),
            old(self).field_ix < old(snapshot).previous_2@.len(),
        ensures
            *final(self) == *old(self),
            snapshot_wrote(
                *old(snapshot),
                *final(snapshot),
                old(self).field_ix as int,
                old(self).spec_predict(value, old(snapshot).previous_2@, old(snapshot).previous@),
            ),
            *final(final(snapshot).current) == *final(old(snapshot).current),
    {
        let p1: i64 = snapshot.previous[self.field_ix];
        let p2: i64 = snapshot.previous_2[self.field_ix];
        let slope: i64 = wrapping_difference(p1, p2);
        let next: i64 = wrapping_sum(slope, p1);
        let result: i64 = wrapping_sum(next, value);
        proof {
            lemma_wrap_add(p1 - p2, p1 as int);
            lemma_wrap_add(p1 - p2 + p1, value as int);
        }
        snapshot.current.set(self.field_ix, result);
    }
}

/// Predicts the mean of the field in the two records before.
#[derive(Clone, Copy, Debug)]
pub struct AveragePredictor {
    pub field_ix: usize,
}

impl AveragePredictor {
    /// The value that the predictor gives for residual `value`.
    pub open spec fn spec_predict(self, value: i64, previous_2: Seq<i64>, previous: Seq<i64>) -> i64 {
        spec_wrap((previous[self.field_ix as int] + previous_2[self.field_ix as int]) / 2 + value)
    }

    /// Writes the value for residual `value` to the predictor's field of
    /// the current record.
    pub fn predict(&mut self, value: i64, snapshot: &mut Snapshot<'_>)
        requires
            old(self).field_ix < old(snapshot).current@.len(),
            old(self).field_ix < old(snapshot).previous@.len(),
            old(self).field_ix < old(snapshot).previous_2@.len(),
        ensures
            *final(self) == *old(self),
            snapshot_wrote(
                *old(snapshot),
                *final(snapshot),
                old(self).field_ix as int,
                old(self).spec_predict(value, old(snapshot).previous_2@, old(snapshot).previous@),
            ),
            *final(final(snapshot).current) == *final(old(snapshot).current),
    {
        let p2: i64 = snapshot.previous_2[self.field_ix];
        let p1: i64 = snapshot.previous[self.field_ix];
        let sum: i128 = p1 as i128 + p2 as i128;
        let avg: i128 = if sum >= 0 {
            sum / 2
        } else {
            -((1 - sum) / 2)
        };
        snapshot.current.set(self.field_ix, wrapping_sum(avg as i64, value));
    }
}

/// A predictor of predicted frames.
#[derive(Clone, Copy, Debug)]
pub enum AnyPPredictor {
    Zero(NonePredictor),
    Previous(PreviousPredictor),
    Inc(IncPredictor),
    StraightLine(StraightLinePredictor),
    Average(AveragePredictor),
}

impl AnyPPredictor {
    /// The field that the predictor fills.
    pub open spec fn spec_field_ix(self) -> int {
        match self {
            AnyPPredictor::Zero(p) => p.field_ix as int,
            AnyPPredictor::Previous(p) => p.field_ix as int,
            AnyPPredictor::Inc(p) => p.field_ix as int,
            AnyPPredictor::StraightLine(p) => p.field_ix as int,
            AnyPPredictor::Average(p) => p.field_ix as int,
        }
    }

    /// The predictor fills field `ix` of `size` fields.
    pub open spec fn wf(self, ix: int, size: nat) -> bool {
        &&& self.spec_field_ix() == ix
        &&& 0 <= ix < size
        &&& self matches AnyPPredictor::Inc(p) ==> p.wf()
    }

    /// The value that the predictor gives for residual `value`, where
    /// `current` is the record so far and `previous`, `previous_2` are the
    /// records before.
    pub open spec fn spec_predict(
        self,
        value: i64,
        previous_2: Seq<i64>,
        previous: Seq<i64>,
        current: Seq<i64>,
    ) -> i64 {
        match self {
            AnyPPredictor::Zero(_) => value,
            AnyPPredictor::Previous(p) => p.spec_predict(value, previous),
            AnyPPredictor::Inc(p) => p.spec_predict(current[p.field_ix as int]),
            AnyPPredictor::StraightLine(p) => p.spec_predict(value, previous_2, previous),
            AnyPPredictor::Average(p) => p.spec_predict(value, previous_2, previous),
        }
    }

    /// The predictor after it gave a value for a record that so far was
    /// `current`.
    pub open spec fn spec_next(self, current: Seq<i64>) -> AnyPPredictor {
        match self {
            AnyPPredictor::Inc(p) => AnyPPredictor::Inc(p.spec_next(current[p.field_ix as int])),
            _ => self,
        }
    }

    /// The predictor of predicted frames that `predictor` names for field
    /// `field_ix`, if it names one. A counter needs an interval that is not
    /// zero.
    pub open spec fn spec_new(predictor: FieldPredictor, p_interval: PInterval, field_ix: usize) -> Option<
        AnyPPredictor,
    > {
        match predictor {
            FieldPredictor::Zero => Some(AnyPPredictor::Zero(NonePredictor { field_ix })),
            FieldPredictor::Previous => Some(
                AnyPPredictor::Previous(PreviousPredictor { field_ix }),
            ),
            FieldPredictor::Increment => if p_interval.numer != 0 && p_interval.denom != 0 {
                Some(
                    AnyPPredictor::Inc(
                        IncPredictor {
                            field_ix,
                            step_numer: p_interval.denom,
                            step_denom: p_interval.numer,
                            whole: 0,
                            remainder: 0,
                            base: 0,
                            expected_value: 0,
                        },
                    ),
                )
            } else {
                None
            },
            FieldPredictor::StraightLine => Some(
                AnyPPredictor::StraightLine(StraightLinePredictor { field_ix }),
            ),
            FieldPredictor::Average2 => Some(AnyPPredictor::Average(AveragePredictor { field_ix })),
            _ => None,
        }
    }

    /// The predictor of predicted frames that `predictor` names, or nothing
    /// where it names none.
    pub fn try_new(predictor: FieldPredictor, p_interval: PInterval, field_ix: usize) -> (r: Option<
        Self,
    >)
        ensures
            r == Self::spec_new(predictor, p_interval, field_ix),
            r matches Some(p) ==> p.spec_field_ix() == field_ix && (p matches AnyPPredictor::Inc(
                inc,
            ) ==> inc.wf()),
    {
        match predictor {
            FieldPredictor::Zero => Some(AnyPPredictor::Zero(NonePredictor { field_ix })),
            FieldPredictor::Previous => Some(
                AnyPPredictor::Previous(PreviousPredictor { field_ix }),
            ),
            FieldPredictor::Increment => {
                if p_interval.numer != 0 && p_interval.denom != 0 {
                    Some(AnyPPredictor::Inc(IncPredictor::new(field_ix, p_interval)))
                } else {
                    None
                }
            },
            FieldPredictor::StraightLine => Some(
                AnyPPredictor::StraightLine(StraightLinePredictor { field_ix }),
            ),
            FieldPredictor::Average2 => Some(AnyPPredictor::Average(AveragePredictor { field_ix })),
            _ => None,
        }
    }

    /// The predictor of predicted frames that `predictor` names.
    pub fn new(predictor: FieldPredictor, p_interval: PInterval, field_ix: usize) -> (r: Self)
        requires
            Self::spec_new(predictor, p_interval, field_ix) is Some,
        ensures
            Some(r) == Self::spec_new(predictor, p_interval, field_ix),
    {
        match Self::try_new(predictor, p_interval, field_ix) {
            Some(r) => r,
            None => vstd::pervasive::unreached(),
        }
    }

    /// The predictor that predicts nothing for field `field_ix`.
    pub fn none(field_ix: usize) -> (r: Self)
        ensures
            r == AnyPPredictor::Zero(NonePredictor { field_ix }),
    {
        AnyPPredictor::Zero(NonePredictor { field_ix })
    }

    /// Writes the value for residual `value` to the predictor's field of
    /// the current record.
    pub fn predict(&mut self, value: i64, snapshot: &mut Snapshot<'_>)
        requires
            old(self).wf(old(self).spec_field_ix(), old(snapshot).current@.len()),
            old(snapshot).previous@.len() == old(snapshot).current@.len(),
            old(snapshot).previous_2@.len() == old(snapshot).current@.len(),
        ensures
            *final(self) == old(self).spec_next(old(snapshot).current@),
            final(self).wf(old(self).spec_field_ix(), old(snapshot).current@.len()),
            snapshot_wrote(
                *old(snapshot),
                *final(snapshot),
                old(self).spec_field_ix(),
                old(self).spec_predict(
                    value,
                    old(snapshot).previous_2@,
                    old(snapshot).previous@,
                    old(snapshot).current@,
                ),
            ),
            *final(final(snapshot).current) == *final(old(snapshot).current),
    {
        match self {
            AnyPPredictor::Zero(p) => p.predict(value, snapshot),
            AnyPPredictor::Previous(p) => p.predict(value, snapshot),
            AnyPPredictor::Inc(p) => p.predict(value, snapshot),
            AnyPPredictor::StraightLine(p) => p.predict(value, snapshot),
            AnyPPredictor::Average(p) => p.predict(value, snapshot),
        }
    }
}

/// Predicts one coordinate of the GNSS home position.
#[derive(Clone, Copy, Debug)]
pub struct HomeCoordinatesPredictor {
    pub field_ix: usize,
    pub gnss_home_ix: usize,
}

impl HomeCoordinatesPredictor {
    /// The value that the predictor gives for residual `value`.
    pub open spec fn spec_predict(self, value: i64, gnss_home: Seq<i64>) -> i64 {
        spec_wrap(gnss_home[self.gnss_home_ix as int] + value)
    }

    /// Writes the value for residual `value` to the predictor's field of
    /// the current record.
    pub fn predict(
        &mut self,
        value: i64,
        snapshot: &mut Snapshot<'_>,
        main_current: &[i64],
        gnss_home: [i64; 2],
    )
        requires
            old(self).field_ix < old(snapshot).current@.len(),
            old(self).gnss_home_ix < 2,
        ensures
            *final(self) == *old(self),
            snapshot_wrote(
                *old(snapshot),
                *final(snapshot),
                old(self).field_ix as int,
                old(self).spec_predict(value, gnss_home@),
            ),
            *final(final(snapshot).current) == *final(old(snapshot).current),
    {
        snapshot.current.set(self.field_ix, wrapping_sum(gnss_home[self.gnss_home_ix], value));
    }
}

/// Predicts the time of the last main record.
#[derive(Clone, Copy, Debug)]
pub struct LastMainFrameTimePredictor {
    pub field_ix: usize,
    pub time_ix: usize,
}

impl LastMainFrameTimePredictor {
    /// The value that the predictor gives for residual `value`.
    pub open spec fn spec_predict(self, value: i64, main_current: Seq<i64>) -> i64 {
        spec_wrap(main_current[self.time_ix as int] + value)
    }

    /// Writes the value for residual `value` to the predictor's field of
    /// the current record.
    pub fn predict(
        &mut self,
        value: i64,
        snapshot: &mut Snapshot<'_>,
        main_current: &[i64],
        gnss_home: [i64; 2],
    )
        requires
            old(self).field_ix < old(snapshot).current@.len(),
            old(self).time_ix < main_current@.len(),
        ensures
            *final(self) == *old(self),
            snapshot_wrote(
                *old(snapshot),
                *final(snapshot),
                old(self).field_ix as int,
                old(self).spec_predict(value, main_current@),
            ),
            *final(final(snapshot).current) == *final(old(snapshot).current),
    {
        snapshot.current.set(self.field_ix, wrapping_sum(main_current[self.time_ix], value));
    }
}

/// A predictor of GNSS frames.
#[derive(Clone, Copy, Debug)]
pub enum AnyGPredictor {
    Zero(NonePredictor),
    HomeCoordinates(HomeCoordinatesPredictor),
    LastMainFrameTime(LastMainFrameTimePredictor),
}

impl AnyGPredictor {
    /// The field that the predictor fills.
    pub open spec fn spec_field_ix(self) -> int {
        match self {
            AnyGPredictor::Zero(p) => p.field_ix as int,
            AnyGPredictor::HomeCoordinates(p) => p.field_ix as int,
            AnyGPredictor::LastMainFrameTime(p) => p.field_ix as int,
        }
    }

    /// The predictor fills field `ix` of `size` fields and reads a home
    /// coordinate that there is, or a main field below `main_size`.
    pub open spec fn wf(self, ix: int, size: nat, main_size: nat) -> bool {
        &&& self.spec_field_ix() == ix
        &&& 0 <= ix < size
        &&& self matches AnyGPredictor::HomeCoordinates(p) ==> p.gnss_home_ix < 2
        &&& self matches AnyGPredictor::LastMainFrameTime(p) ==> p.time_ix < main_size
    }

    /// The value that the predictor gives for residual `value`, where
    /// `main_current` is the last main record and `gnss_home` the home
    /// position.
    pub open spec fn spec_predict(self, value: i64, main_current: Seq<i64>, gnss_home: Seq<i64>) -> i64 {
        match self {
            AnyGPredictor::Zero(_) => value,
            AnyGPredictor::HomeCoordinates(p) => p.spec_predict(value, gnss_home),
            AnyGPredictor::LastMainFrameTime(p) => p.spec_predict(value, main_current),
        }
    }

    /// The predictor of GNSS frames that `predictor` names for field
    /// `field_ix`, if it names one and what it refers to is there:
    /// coordinate `index` of the two home coordinates, or the main field
    /// `time`.
    pub open spec fn spec_new(
        predictor: FieldPredictor,
        field_ix: usize,
        index: usize,
        names: Seq<Seq<char>>,
    ) -> Option<AnyGPredictor> {
        match predictor {
            FieldPredictor::Zero => Some(AnyGPredictor::Zero(NonePredictor { field_ix })),
            FieldPredictor::HomeCoordinates => if index < 2 {
                Some(
                    AnyGPredictor::HomeCoordinates(
                        HomeCoordinatesPredictor { field_ix, gnss_home_ix: index },
                    ),
                )
            } else {
                None
            },
            FieldPredictor::LastMainFrameTime => match spec_last_index(names, "time"@) {
                Some(ix) => Some(
                    AnyGPredictor::LastMainFrameTime(
                        LastMainFrameTimePredictor { field_ix, time_ix: ix as usize },
                    ),
                ),
                None => None,
            },
            _ => None,
        }
    }

    /// The predictor of GNSS frames that `predictor` names, or nothing where
    /// it names none or refers to what is not there.
    pub fn try_new(
        predictor: FieldPredictor,
        field_ix: usize,
        index: usize,
        ip_fields: &Vec<IPField>,
    ) -> (r: Option<Self>)
        ensures
            r == Self::spec_new(predictor, field_ix, index, spec_ip_names(ip_fields@)),
            r matches Some(p) ==> p.spec_field_ix() == field_ix,
            r matches Some(AnyGPredictor::LastMainFrameTime(p)) ==> p.time_ix < ip_fields@.len(),
            r matches Some(AnyGPredictor::HomeCoordinates(p)) ==> p.gnss_home_ix < 2,
    {
        match predictor {
            FieldPredictor::Zero => Some(AnyGPredictor::Zero(NonePredictor { field_ix })),
            FieldPredictor::HomeCoordinates => {
                if index < 2 {
                    Some(
                        AnyGPredictor::HomeCoordinates(
                            HomeCoordinatesPredictor { field_ix, gnss_home_ix: index },
                        ),
                    )
                } else {
                    None
                }
            },
            FieldPredictor::LastMainFrameTime => match last_ip_field(ip_fields, "time") {
                Some(ix) => Some(
                    AnyGPredictor::LastMainFrameTime(
                        LastMainFrameTimePredictor { field_ix, time_ix: ix },
                    ),
                ),
                None => None,
            },
            _ => None,
        }
    }

    /// The predictor of GNSS frames that `predictor` names.
    pub fn new(predictor: FieldPredictor, field_ix: usize, index: usize, ip_fields: &Vec<IPField>) -> (r:
        Self)
        requires
            Self::spec_new(predictor, field_ix, index, spec_ip_names(ip_fields@)) is Some,
        ensures
            Some(r) == Self::spec_new(predictor, field_ix, index, spec_ip_names(ip_fields@)),
    {
        match Self::try_new(predictor, field_ix, index, ip_fields) {
            Some(r) => r,
            None => vstd::pervasive::unreached(),
        }
    }

    /// Writes the value for residual `value` to the predictor's field of
    /// the current record.
    pub fn predict(
        &mut self,
        value: i64,
        snapshot: &mut Snapshot<'_>,
        main_current: &[i64],
        gnss_home: [i64; 2],
    )
        requires
            old(self).wf(
                old(self).spec_field_ix(),
                old(snapshot).current@.len(),
                main_current@.len(),
            ),
        ensures
            *final(self) == *old(self),
            snapshot_wrote(
                *old(snapshot),
                *final(snapshot),
                old(self).spec_field_ix(),
                old(self).spec_predict(value, main_current@, gnss_home@),
            ),
            *final(final(snapshot).current) == *final(old(snapshot).current),
    {
        match self {
            AnyGPredictor::Zero(p) => p.predict(value, snapshot),
            AnyGPredictor::HomeCoordinates(p) => p.predict(
                value,
                snapshot,
                main_current,
                gnss_home,
            ),
            AnyGPredictor::LastMainFrameTime(p) => p.predict(
                value,
                snapshot,
                main_current,
                gnss_home,
            ),
        }
    }
}

/// The record of an intra frame after its first `n` fields were predicted,
/// each from the record as the fields before it left it.
pub open spec fn spec_apply_i(
    predictors: Seq<AnyIPredictor>,
    residuals: Seq<i64>,
    current: Seq<i64>,
    n: nat,
) -> Seq<i64>
    decreases n,
{
    if n == 0 {
        current
    } else {
        let before = spec_apply_i(predictors, residuals, current, (n - 1) as nat);
        let predictor = predictors[n - 1];
        before.update(predictor.spec_field_ix(), predictor.spec_predict(residuals[n - 1], before))
    }
}

/// The record of a predicted frame after its first `n` fields were
/// predicted.
pub open spec fn spec_apply_p(
    predictors: Seq<AnyPPredictor>,
    residuals: Seq<i64>,
    previous_2: Seq<i64>,
    previous: Seq<i64>,
    current: Seq<i64>,
    n: nat,
) -> Seq<i64>
    decreases n,
{
    if n == 0 {
        current
    } else {
        let before = spec_apply_p(
            predictors,
            residuals,
            previous_2,
            previous,
            current,
            (n - 1) as nat,
        );
        let predictor = predictors[n - 1];
        before.update(
            predictor.spec_field_ix(),
            predictor.spec_predict(residuals[n - 1], previous_2, previous, before),
        )
    }
}

/// The predictors of predicted frames after one frame: each as it is after
/// it gave its value.
pub open spec fn spec_step_p(
    predictors: Seq<AnyPPredictor>,
    residuals: Seq<i64>,
    previous_2: Seq<i64>,
    previous: Seq<i64>,
    current: Seq<i64>,
) -> Seq<AnyPPredictor> {
    Seq::new(
        predictors.len(),
        |i: int|
            predictors[i].spec_next(
                spec_apply_p(predictors, residuals, previous_2, previous, current, i as nat),
            ),
    )
}

/// The record of a GNSS frame after its first `n` fields were predicted.
pub open spec fn spec_apply_g(
    predictors: Seq<AnyGPredictor>,
    residuals: Seq<i64>,
    main_current: Seq<i64>,
    gnss_home: Seq<i64>,
    current: Seq<i64>,
    n: nat,
) -> Seq<i64>
    decreases n,
{
    if n == 0 {
        current
    } else {
        let before = spec_apply_g(
            predictors,
            residuals,
            main_current,
            gnss_home,
            current,
            (n - 1) as nat,
        );
        let predictor = predictors[n - 1];
        before.update(
            predictor.spec_field_ix(),
            predictor.spec_predict(residuals[n - 1], main_current, gnss_home),
        )
    }
}

/// Every predictor of intra frames fills the field of its own index.
pub open spec fn spec_i_predictors_wf(predictors: Seq<AnyIPredictor>) -> bool {
    forall|i: int|
        0 <= i < predictors.len() ==> (#[trigger] predictors[i]).wf(i, predictors.len())
}

/// Every predictor of predicted frames fills the field of its own index.
pub open spec fn spec_p_predictors_wf(predictors: Seq<AnyPPredictor>) -> bool {
    forall|i: int|
        0 <= i < predictors.len() ==> (#[trigger] predictors[i]).wf(i, predictors.len())
}

/// Every predictor of GNSS frames fills the field of its own index.
pub open spec fn spec_g_predictors_wf(predictors: Seq<AnyGPredictor>, main_size: nat) -> bool {
    forall|i: int|
        0 <= i < predictors.len() ==> (#[trigger] predictors[i]).wf(
            i,
            predictors.len(),
            main_size,
        )
}

/// Predicting the first `n` fields of an intra frame keeps the record's
/// length and leaves the fields from `n` on as they were.
pub proof fn lemma_apply_i_rest(
    predictors: Seq<AnyIPredictor>,
    residuals: Seq<i64>,
    current: Seq<i64>,
    n: nat,
)
    requires
        spec_i_predictors_wf(predictors),
        current.len() == predictors.len(),
        n <= predictors.len(),
    ensures
        spec_apply_i(predictors, residuals, current, n).len() == current.len(),
        forall|j: int|
            n <= j < current.len() ==> spec_apply_i(predictors, residuals, current, n)[j]
                == current[j],
    decreases n,
{
    if n > 0 {
        lemma_apply_i_rest(predictors, residuals, current, (n - 1) as nat);
        assert(predictors[n - 1].wf(n - 1, predictors.len()));
    }
}

/// A field of an intra frame keeps its value once it is predicted.
pub proof fn lemma_apply_i_kept(
    predictors: Seq<AnyIPredictor>,
    residuals: Seq<i64>,
    current: Seq<i64>,
    n: nat,
    i: int,
)
    requires
        spec_i_predictors_wf(predictors),
        current.len() == predictors.len(),
        0 <= i < n <= predictors.len(),
    ensures
        spec_apply_i(predictors, residuals, current, n)[i] == spec_apply_i(
            predictors,
            residuals,
            current,
            (i + 1) as nat,
        )[i],
    decreases n,
{
    if n > i + 1 {
        lemma_apply_i_kept(predictors, residuals, current, (n - 1) as nat, i);
        lemma_apply_i_rest(predictors, residuals, current, (n - 1) as nat);
        assert(predictors[n - 1].wf(n - 1, predictors.len()));
    }
}

/// Every value of a main record from an intra frame is what the predictor
/// of its field gives for the field's residual and the record as the fields
/// before it left it: those fields as the frame gives them, the others as
/// the history had them.
pub proof fn lemma_intra_values(
    predictors: Seq<AnyIPredictor>,
    residuals: Seq<i64>,
    current: Seq<i64>,
    i: int,
)
    requires
        spec_i_predictors_wf(predictors),
        residuals.len() == predictors.len(),
        current.len() == predictors.len(),
        0 <= i < predictors.len(),
    ensures
        ({
            let emitted = spec_apply_i(predictors, residuals, current, predictors.len());
            let before = spec_apply_i(predictors, residuals, current, i as nat);
            &&& emitted[i] == predictors[i].spec_predict(residuals[i], before)
            &&& before.len() == current.len()
            &&& forall|j: int| 0 <= j < i ==> before[j] == emitted[j]
            &&& forall|j: int| i <= j < current.len() ==> before[j] == current[j]
        }),
{
    let emitted = spec_apply_i(predictors, residuals, current, predictors.len());
    let before = spec_apply_i(predictors, residuals, current, i as nat);
    lemma_apply_i_kept(predictors, residuals, current, predictors.len(), i);
    lemma_apply_i_rest(predictors, residuals, current, i as nat);
    assert(predictors[i].wf(i, predictors.len()));
    assert forall|j: int| 0 <= j < i implies before[j] == emitted[j] by {
        lemma_apply_i_kept(predictors, residuals, current, predictors.len(), j);
        lemma_apply_i_kept(predictors, residuals, current, i as nat, j);
    }
}

/// Predicting the first `n` fields of a predicted frame keeps the record's
/// length and leaves the fields from `n` on as they were.
pub proof fn lemma_apply_p_rest(
    predictors: Seq<AnyPPredictor>,
    residuals: Seq<i64>,
    previous_2: Seq<i64>,
    previous: Seq<i64>,
    current: Seq<i64>,
    n: nat,
)
    requires
        spec_p_predictors_wf(predictors),
        current.len() == predictors.len(),
        n <= predictors.len(),
    ensures
        spec_apply_p(predictors, residuals, previous_2, previous, current, n).len()
            == current.len(),
        forall|j: int|
            n <= j < current.len() ==> spec_apply_p(
                predictors,
                residuals,
                previous_2,
                previous,
                current,
                n,
            )[j] == current[j],
    decreases n,
{
    if n > 0 {
        lemma_apply_p_rest(predictors, residuals, previous_2, previous, current, (n - 1) as nat);
        assert(predictors[n - 1].wf(n - 1, predictors.len()));
    }
}

/// A field of a predicted frame keeps its value once it is predicted.
pub proof fn lemma_apply_p_kept(
    predictors: Seq<AnyPPredictor>,
    residuals: Seq<i64>,
    previous_2: Seq<i64>,
    previous: Seq<i64>,
    current: Seq<i64>,
    n: nat,
    i: int,
)
    requires
        spec_p_predictors_wf(predictors),
        current.len() == predictors.len(),
        0 <= i < n <= predictors.len(),
    ensures
        spec_apply_p(predictors, residuals, previous_2, previous, current, n)[i] == spec_apply_p(
            predictors,
            residuals,
            previous_2,
            previous,
            current,
            (i + 1) as nat,
        )[i],
    decreases n,
{
    if n > i + 1 {
        lemma_apply_p_kept(
            predictors,
            residuals,
            previous_2,
            previous,
            current,
            (n - 1) as nat,
            i,
        );
        lemma_apply_p_rest(predictors, residuals, previous_2, previous, current, (n - 1) as nat);
        assert(predictors[n - 1].wf(n - 1, predictors.len()));
    }
}

/// Every value of a main record from a predicted frame is what the
/// predictor of its field gives for the field's residual and the history as
/// it was before the frame; and every predictor goes on from that history.
pub proof fn lemma_predicted_values(
    predictors: Seq<AnyPPredictor>,
    residuals: Seq<i64>,
    previous_2: Seq<i64>,
    previous: Seq<i64>,
    current: Seq<i64>,
    i: int,
)
    requires
        spec_p_predictors_wf(predictors),
        residuals.len() == predictors.len(),
        current.len() == predictors.len(),
        0 <= i < predictors.len(),
    ensures
        spec_apply_p(predictors, residuals, previous_2, previous, current, predictors.len())[i]
            == predictors[i].spec_predict(residuals[i], previous_2, previous, current),
        spec_step_p(predictors, residuals, previous_2, previous, current)[i]
            == predictors[i].spec_next(current),
{
    lemma_apply_p_kept(predictors, residuals, previous_2, previous, current, predictors.len(), i);
    lemma_apply_p_rest(predictors, residuals, previous_2, previous, current, i as nat);
    assert(predictors[i].wf(i, predictors.len()));
}

/// Predicting the first `n` fields of a GNSS frame keeps the record's
/// length and leaves the fields from `n` on as they were.
pub proof fn lemma_apply_g_rest(
    predictors: Seq<AnyGPredictor>,
    residuals: Seq<i64>,
    main_current: Seq<i64>,
    gnss_home: Seq<i64>,
    current: Seq<i64>,
    n: nat,
)
    requires
        spec_g_predictors_wf(predictors, main_current.len()),
        current.len() == predictors.len(),
        n <= predictors.len(),
    ensures
        spec_apply_g(predictors, residuals, main_current, gnss_home, current, n).len()
            == current.len(),
        forall|j: int|
            n <= j < current.len() ==> spec_apply_g(
                predictors,
                residuals,
                main_current,
                gnss_home,
                current,
                n,
            )[j] == current[j],
    decreases n,
{
    if n > 0 {
        lemma_apply_g_rest(predictors, residuals, main_current, gnss_home, current, (n - 1) as nat);
        assert(predictors[n - 1].wf(n - 1, predictors.len(), main_current.len()));
    }
}

/// Every value of a GNSS record is what the predictor of its field gives for
/// the field's residual, the last main record and the home position.
pub proof fn lemma_gnss_values(
    predictors: Seq<AnyGPredictor>,
    residuals: Seq<i64>,
    main_current: Seq<i64>,
    gnss_home: Seq<i64>,
    current: Seq<i64>,
    n: nat,
    i: int,
)
    requires
        spec_g_predictors_wf(predictors, main_current.len()),
        residuals.len() == predictors.len(),
        current.len() == predictors.len(),
        0 <= i < n <= predictors.len(),
    ensures
        spec_apply_g(predictors, residuals, main_current, gnss_home, current, n)[i]
            == predictors[i].spec_predict(residuals[i], main_current, gnss_home),
    decreases n,
{
    lemma_apply_g_rest(predictors, residuals, main_current, gnss_home, current, (n - 1) as nat);
    assert(predictors[n - 1].wf(n - 1, predictors.len(), main_current.len()));
    if n > i + 1 {
        lemma_gnss_values(
            predictors,
            residuals,
            main_current,
            gnss_home,
            current,
            (n - 1) as nat,
            i,
        );
    }
}

fn apply_i(predictors: &Vec<AnyIPredictor>, buf: &Vec<i64>, snapshot: &mut Snapshot<'_>)
    requires
        spec_i_predictors_wf(predictors@),
        buf@.len() == predictors@.len(),
        old(snapshot).current@.len() == predictors@.len(),
    ensures
        final(snapshot).current@ == spec_apply_i(
            predictors@,
            buf@,
            old(snapshot).current@,
            predictors@.len(),
        ),
        final(snapshot).current@.len() == predictors@.len(),
        final(snapshot).previous == old(snapshot).previous,
        final(snapshot).previous_2 == old(snapshot).previous_2,
        *final(final(snapshot).current) == *final(old(snapshot).current),
{
    let mut i: usize = 0;
    while i < buf.len()
        invariant
            spec_i_predictors_wf(predictors@),
            buf@.len() == predictors@.len(),
            i <= buf@.len(),
            snapshot.current@.len() == predictors@.len(),
            snapshot.current@ == spec_apply_i(predictors@, buf@, old(snapshot).current@, i as nat),
            snapshot.previous == old(snapshot).previous,
            snapshot.previous_2 == old(snapshot).previous_2,
            *final(snapshot.current) == *final(old(snapshot).current),
        decreases buf@.len() - i,
    {
        let predictor: AnyIPredictor = predictors[i];
        predictor.predict(buf[i], snapshot);
        i = i + 1;
    }
}

fn apply_p(predictors: &mut Vec<AnyPPredictor>, buf: &Vec<i64>, snapshot: &mut Snapshot<'_>)
    requires
        spec_p_predictors_wf(old(predictors)@),
        buf@.len() == old(predictors)@.len(),
        old(snapshot).current@.len() == old(predictors)@.len(),
        old(snapshot).previous@.len() == old(predictors)@.len(),
        old(snapshot).previous_2@.len() == old(predictors)@.len(),
    ensures
        final(predictors)@ == spec_step_p(
            old(predictors)@,
            buf@,
            old(snapshot).previous_2@,
            old(snapshot).previous@,
            old(snapshot).current@,
        ),
        spec_p_predictors_wf(final(predictors)@),
        final(snapshot).current@ == spec_apply_p(
            old(predictors)@,
            buf@,
            old(snapshot).previous_2@,
            old(snapshot).previous@,
            old(snapshot).current@,
            buf@.len(),
        ),
        final(snapshot).current@.len() == buf@.len(),
        final(snapshot).previous == old(snapshot).previous,
        final(snapshot).previous_2 == old(snapshot).previous_2,
        *final(final(snapshot).current) == *final(old(snapshot).current),
{
    let ghost before = predictors@;
    let ghost after = spec_step_p(
        before,
        buf@,
        snapshot.previous_2@,
        snapshot.previous@,
        snapshot.current@,
    );
    let mut i: usize = 0;
    while i < buf.len()
        invariant
            before == old(predictors)@,
            after == spec_step_p(
                before,
                buf@,
                old(snapshot).previous_2@,
                old(snapshot).previous@,
                old(snapshot).current@,
            ),
            spec_p_predictors_wf(before),
            spec_p_predictors_wf(predictors@),
            buf@.len() == before.len(),
            predictors@.len() == before.len(),
            i <= buf@.len(),
            snapshot.current@.len() == before.len(),
            snapshot.previous@.len() == before.len(),
            snapshot.previous_2@.len() == before.len(),
            forall|j: int| 0 <= j < i ==> predictors@[j] == after[j],
            forall|j: int| i <= j < before.len() ==> predictors@[j] == before[j],
            snapshot.current@ == spec_apply_p(
                before,
                buf@,
                old(snapshot).previous_2@,
                old(snapshot).previous@,
                old(snapshot).current@,
                i as nat,
            ),
            snapshot.previous == old(snapshot).previous,
            snapshot.previous_2 == old(snapshot).previous_2,
            *final(snapshot.current) == *final(old(snapshot).current),
        decreases buf@.len() - i,
    {
        let mut predictor: AnyPPredictor = predictors[i];
        assert(predictor.wf(i as int, before.len()));
        predictor.predict(buf[i], snapshot);
        predictors.set(i, predictor);
        i = i + 1;
    }
    assert(predictors@ =~= after);
}

fn apply_g(
    predictors: &Vec<AnyGPredictor>,
    buf: &Vec<i64>,
    snapshot: &mut Snapshot<'_>,
    main_current: &[i64],
    gnss_home: [i64; 2],
)
    requires
        spec_g_predictors_wf(predictors@, main_current@.len()),
        buf@.len() == predictors@.len(),
        old(snapshot).current@.len() == predictors@.len(),
    ensures
        final(snapshot).current@ == spec_apply_g(
            predictors@,
            buf@,
            main_current@,
            gnss_home@,
            old(snapshot).current@,
            predictors@.len(),
        ),
        final(snapshot).current@.len() == predictors@.len(),
        final(snapshot).previous == old(snapshot).previous,
        final(snapshot).previous_2 == old(snapshot).previous_2,
        *final(final(snapshot).current) == *final(old(snapshot).current),
{
    let mut i: usize = 0;
    while i < buf.len()
        invariant
            spec_g_predictors_wf(predictors@, main_current@.len()),
            buf@.len() == predictors@.len(),
            i <= buf@.len(),
            snapshot.current@.len() == predictors@.len(),
            snapshot.current@ == spec_apply_g(
                predictors@,
                buf@,
                main_current@,
                gnss_home@,
                old(snapshot).current@,
                i as nat,
            ),
            snapshot.previous == old(snapshot).previous,
            snapshot.previous_2 == old(snapshot).previous_2,
            *final(snapshot.current) == *final(old(snapshot).current),
        decreases buf@.len() - i,
    {
        let mut predictor: AnyGPredictor = predictors[i];
        predictor.predict(buf[i], snapshot, main_current, gnss_home);
        i = i + 1;
    }
}

/// A record as the frame processor hands it up. Main and GNSS records are
/// lent out of the history that holds them.
#[derive(Debug)]
pub enum LogRecord<'a> {
    Main(&'a [i64]),
    GNSS(&'a [i64]),
    Slow(Vec<i64>),
    Event(event::Frame),
}

/// A record as a plain value.
pub enum RecordModel {
    Main(Seq<i64>),
    Gnss(Seq<i64>),
    Slow(Seq<i64>),
    Event(event::Frame),
    /// Bytes that were passed over. No frame gives such a record.
    Garbage(usize),
}

impl<'a> View for LogRecord<'a> {
    type V = RecordModel;

    open spec fn view(&self) -> RecordModel {
        match *self {
            LogRecord::Main(values) => RecordModel::Main(values@),
            LogRecord::GNSS(values) => RecordModel::Gnss(values@),
            LogRecord::Slow(values) => RecordModel::Slow(values@),
            LogRecord::Event(ev) => RecordModel::Event(ev),
        }
    }
}

/// The record behind an optional exec record.
pub open spec fn spec_record(r: Option<LogRecord>) -> Option<RecordModel> {
    match r {
        Some(record) => Some(record@),
        None => None,
    }
}

/// Turns decoded frames into records: it holds the predictors of the three
/// predicted record classes and the histories that they read and fill.
pub struct LogProcessor {
    pub ip_history: History,
    pub gnss_history: GNSSHistory,
    pub i_predictors: Vec<AnyIPredictor>,
    pub p_predictors: Vec<AnyPPredictor>,
    pub g_predictors: Vec<AnyGPredictor>,
}

/// The state of a frame processor as plain values.
pub struct ProcessorModel {
    pub previous_2: Seq<i64>,
    pub previous: Seq<i64>,
    pub current: Seq<i64>,
    pub gnss_previous_2: Seq<i64>,
    pub gnss_previous: Seq<i64>,
    pub gnss_current: Seq<i64>,
    pub gnss_home: Seq<i64>,
    pub i_predictors: Seq<AnyIPredictor>,
    pub p_predictors: Seq<AnyPPredictor>,
    pub g_predictors: Seq<AnyGPredictor>,
}

impl ProcessorModel {
    /// Histories and predictors fit together: one predictor of each main
    /// class per main field, one GNSS predictor per GNSS field, each filling
    /// the field of its own index, and a home position of two coordinates.
    pub open spec fn wf(self) -> bool {
        &&& self.previous_2.len() == self.current.len()
        &&& self.previous.len() == self.current.len()
        &&& self.gnss_previous_2.len() == self.gnss_current.len()
        &&& self.gnss_previous.len() == self.gnss_current.len()
        &&& self.gnss_home.len() == 2
        &&& self.i_predictors.len() == self.current.len()
        &&& self.p_predictors.len() == self.current.len()
        &&& self.g_predictors.len() == self.gnss_current.len()
        &&& spec_i_predictors_wf(self.i_predictors)
        &&& spec_p_predictors_wf(self.p_predictors)
        &&& spec_g_predictors_wf(self.g_predictors, self.current.len())
    }

    /// The processor before the first frame: all values zero.
    pub open spec fn initial(
        i_predictors: Seq<AnyIPredictor>,
        p_predictors: Seq<AnyPPredictor>,
        g_predictors: Seq<AnyGPredictor>,
    ) -> ProcessorModel {
        ProcessorModel {
            previous_2: Seq::new(i_predictors.len(), |i: int| 0i64),
            previous: Seq::new(i_predictors.len(), |i: int| 0i64),
            current: Seq::new(i_predictors.len(), |i: int| 0i64),
            gnss_previous_2: Seq::new(g_predictors.len(), |i: int| 0i64),
            gnss_previous: Seq::new(g_predictors.len(), |i: int| 0i64),
            gnss_current: Seq::new(g_predictors.len(), |i: int| 0i64),
            gnss_home: seq![0i64, 0i64],
            i_predictors,
            p_predictors,
            g_predictors,
        }
    }

    /// The frame has one value for each field of its class. Slow frames,
    /// home frames and events are taken as they come.
    pub open spec fn spec_accepts(self, frame: FrameModel) -> bool {
        match frame {
            FrameModel::Intra(buf) => buf.len() == self.current.len(),
            FrameModel::Predicted(buf) => buf.len() == self.current.len(),
            FrameModel::Gnss(buf) => buf.len() == self.gnss_current.len(),
            _ => true,
        }
    }

    /// The processor after `frame`, and the record that the frame gives.
    ///
    /// An intra frame is predicted field by field and becomes both earlier
    /// generations of the main history. A predicted frame and a GNSS frame
    /// are predicted likewise and move their history on by one record. A
    /// home frame of two values sets the home position and gives no record;
    /// one of another length changes nothing. Slow frames and events are
    /// handed up as they are.
    pub open spec fn spec_process(self, frame: FrameModel) -> (ProcessorModel, Option<RecordModel>) {
        match frame {
            FrameModel::Intra(buf) => {
                let emitted = spec_apply_i(self.i_predictors, buf, self.current, buf.len());
                (
                    ProcessorModel {
                        previous_2: emitted,
                        previous: emitted,
                        current: emitted,
                        ..self
                    },
                    Some(RecordModel::Main(emitted)),
                )
            },
            FrameModel::Predicted(buf) => {
                let emitted = spec_apply_p(
                    self.p_predictors,
                    buf,
                    self.previous_2,
                    self.previous,
                    self.current,
                    buf.len(),
                );
                (
                    ProcessorModel {
                        previous_2: self.previous,
                        previous: emitted,
                        current: emitted,
                        p_predictors: spec_step_p(
                            self.p_predictors,
                            buf,
                            self.previous_2,
                            self.previous,
                            self.current,
                        ),
                        ..self
                    },
                    Some(RecordModel::Main(emitted)),
                )
            },
            FrameModel::Gnss(buf) => {
                let emitted = spec_apply_g(
                    self.g_predictors,
                    buf,
                    self.current,
                    self.gnss_home,
                    self.gnss_current,
                    buf.len(),
                );
                (
                    ProcessorModel {
                        gnss_previous_2: self.gnss_previous,
                        gnss_previous: emitted,
                        gnss_current: emitted,
                        ..self
                    },
                    Some(RecordModel::Gnss(emitted)),
                )
            },
            FrameModel::Home(buf) => {
                if buf.len() == 2 {
                    (ProcessorModel { gnss_home: buf, ..self }, None)
                } else {
                    (self, None)
                }
            },
            FrameModel::Slow(buf) => (self, Some(RecordModel::Slow(buf))),
            FrameModel::Event(ev) => (self, Some(RecordModel::Event(ev))),
        }
    }
}

impl View for LogProcessor {
    type V = ProcessorModel;

    open spec fn view(&self) -> ProcessorModel {
        ProcessorModel {
            previous_2: self.ip_history.previous_2(),
            previous: self.ip_history.previous(),
            current: self.ip_history.current(),
            gnss_previous_2: self.gnss_history.history.previous_2(),
            gnss_previous: self.gnss_history.history.previous(),
            gnss_current: self.gnss_history.history.current(),
            gnss_home: self.gnss_history.home(),
            i_predictors: self.i_predictors@,
            p_predictors: self.p_predictors@,
            g_predictors: self.g_predictors@,
        }
    }
}

impl LogProcessor {
    /// The histories are well formed, and the state as a whole is.
    pub open spec fn wf(&self) -> bool {
        &&& self.ip_history.wf()
        &&& self.gnss_history.history.wf()
        &&& self@.wf()
    }

    /// A processor for the records of a log with schema `header`: the
    /// predictors are those of the schema, all values are zero.
    pub fn new(header: &Header) -> (r: Self)
        requires
            header.wf(),
        ensures
            r.wf(),
            r@ == ProcessorModel::initial(
                header.i_field_predictors@,
                header.p_field_predictors@,
                header.g_field_predictors@,
            ),
    {
        let i_predictors = header.i_field_predictors.clone();
        let p_predictors = header.p_field_predictors.clone();
        let g_predictors = header.g_field_predictors.clone();
        assert(i_predictors@ =~= header.i_field_predictors@);
        assert(p_predictors@ =~= header.p_field_predictors@);
        assert(g_predictors@ =~= header.g_field_predictors@);
        Self {
            ip_history: History::with_size(i_predictors.len()),
            gnss_history: GNSSHistory::with_size(g_predictors.len()),
            i_predictors,
            p_predictors,
            g_predictors,
        }
    }

    /// Processes one frame.
    pub fn process_frame(&mut self, frame: BodyFrame) -> (r: Option<LogRecord<'_>>)
        requires
            old(self).wf(),
            old(self)@.spec_accepts(frame@),
        ensures
            final(self).wf(),
            (final(self)@, spec_record(r)) == old(self)@.spec_process(frame@),
    {
        match frame {
            BodyFrame::IFrame(OwnedIFrame { buf }) => {
                let mut snapshot = self.ip_history.state();
                apply_i(&self.i_predictors, &buf, &mut snapshot);
                self.ip_history.advance_reset();
                Some(LogRecord::Main(self.ip_history.values()))
            },
            BodyFrame::PFrame(OwnedPFrame { buf }) => {
                let mut snapshot = self.ip_history.state();
                apply_p(&mut self.p_predictors, &buf, &mut snapshot);
                self.ip_history.advance();
                Some(LogRecord::Main(self.ip_history.values()))
            },
            BodyFrame::HFrame(OwnedHFrame { buf }) => {
                if buf.len() == 2 {
                    self.gnss_history.gnss_home[0] = buf[0];
                    self.gnss_history.gnss_home[1] = buf[1];
                    assert(self.gnss_history.gnss_home@ =~= buf@);
                }
                None
            },
            BodyFrame::GFrame(OwnedGFrame { buf }) => {
                let gnss_home: [i64; 2] = self.gnss_history.gnss_home;
                let mut snapshot = self.gnss_history.history.state();
                apply_g(
                    &self.g_predictors,
                    &buf,
                    &mut snapshot,
                    self.ip_history.current.as_slice(),
                    gnss_home,
                );
                self.gnss_history.history.advance();
                Some(LogRecord::GNSS(self.gnss_history.history.values()))
            },
            BodyFrame::SFrame(OwnedSFrame { buf }) => Some(LogRecord::Slow(buf)),
            BodyFrame::Event(frame) => Some(LogRecord::Event(frame)),
        }
    }
}

/// After the main record of an intra frame, both earlier generations of the
/// main history are that record.
pub proof fn lemma_intra_resets_history(before: ProcessorModel, buf: Seq<i64>)
    ensures
        ({
            let (after, record) = before.spec_process(FrameModel::Intra(buf));
            &&& record matches Some(RecordModel::Main(emitted))
            &&& after.previous == emitted
            &&& after.previous_2 == emitted
        }),
{
}

/// After the main record of a predicted frame, `previous` is that record
/// and `previous_2` is what `previous` was before.
pub proof fn lemma_predicted_moves_history(before: ProcessorModel, buf: Seq<i64>)
    ensures
        ({
            let (after, record) = before.spec_process(FrameModel::Predicted(buf));
            &&& record matches Some(RecordModel::Main(emitted))
            &&& after.previous == emitted
            &&& after.previous_2 == before.previous
        }),
{
}

/// A home frame gives no record, and one that does not hold exactly two
/// values leaves the processor, the home position with it, as it was.
pub proof fn lemma_home_frame(before: ProcessorModel, buf: Seq<i64>)
    ensures
        before.spec_process(FrameModel::Home(buf)).1 is None,
        buf.len() != 2 ==> before.spec_process(FrameModel::Home(buf)).0 == before,
        buf.len() == 2 ==> before.spec_process(FrameModel::Home(buf)).0.gnss_home == buf,
{
}

/// Processing a frame that the processor accepts keeps it well formed.
pub proof fn lemma_process_keeps_wf(before: ProcessorModel, frame: FrameModel)
    requires
        before.wf(),
        before.spec_accepts(frame),
    ensures
        before.spec_process(frame).0.wf(),
        before.spec_process(frame).0.current.len() == before.current.len(),
        before.spec_process(frame).0.gnss_current.len() == before.gnss_current.len(),
{
    match frame {
        FrameModel::Intra(buf) => {
            lemma_apply_i_rest(before.i_predictors, buf, before.current, buf.len());
        },
        FrameModel::Predicted(buf) => {
            lemma_apply_p_rest(
                before.p_predictors,
                buf,
                before.previous_2,
                before.previous,
                before.current,
                buf.len(),
            );
            let stepped = spec_step_p(
                before.p_predictors,
                buf,
                before.previous_2,
                before.previous,
                before.current,
            );
            assert forall|i: int| 0 <= i < stepped.len() implies (#[trigger] stepped[i]).wf(
                i,
                stepped.len(),
            ) by {
                assert(before.p_predictors[i].wf(i, before.p_predictors.len()));
            }
        },
        FrameModel::Gnss(buf) => {
            lemma_apply_g_rest(
                before.g_predictors,
                buf,
                before.current,
                before.gnss_home,
                before.gnss_current,
                buf.len(),
            );
        },
        _ => {},
    }
}

} // verus!
