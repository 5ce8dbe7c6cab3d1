//! The simulated device: clamped positioners (LED brightness channels and
//! the servo angle), the environmental sensor, and the self-test sequencer.

use vstd::prelude::*;
use vstd::string::StringExecFns;

use crate::protocol::{spec_settable, Request, RequestNoun, Response, ResponseError};

verus! {

/// Mathematical model of a positioner: the fixed range and default, and
/// the current value.
#[verifier::ext_equal]
pub struct PosModel {
    pub min: int,
    pub max: int,
    pub def: int,
    pub value: int,
}

/// A positioner is well formed when its default and its current value both
/// lie inside its range.
pub open spec fn pos_inv(p: PosModel) -> bool {
    &&& p.min <= p.def <= p.max
    &&& p.min <= p.value <= p.max
}

pub open spec fn min_int(a: int, b: int) -> int {
    if a < b {
        a
    } else {
        b
    }
}

pub open spec fn max_int(a: int, b: int) -> int {
    if a > b {
        a
    } else {
        b
    }
}

/// The value a positioner stores when asked to take `v`: clamped into
/// `[min, max]`.
pub open spec fn pos_clamp(p: PosModel, v: int) -> int {
    max_int(min_int(v, p.max), p.min)
}

/// One clamped integer actuator channel: an LED brightness or the servo
/// angle. Every mutation clamps the new value into `[min, max]`.
pub struct Positioner {
    min: i64,
    max: i64,
    def: i64,
    value: i64,
}

/// Snapshot of a positioner's current value.
pub struct PositionerState {
    pub value: i64,
}

impl View for Positioner {
    type V = PosModel;

    closed spec fn view(&self) -> PosModel {
        PosModel {
            min: self.min as int,
            max: self.max as int,
            def: self.def as int,
            value: self.value as int,
        }
    }
}

impl Positioner {
    pub fn new(min: i64, max: i64, def: i64) -> (r: Positioner)
        requires
            min <= def <= max,
        ensures
            r@ == (PosModel { min: min as int, max: max as int, def: def as int, value: def as int }),
            pos_inv(r@),
    {
        Positioner { min, max, def, value: def }
    }

    pub fn get(&self) -> (r: PositionerState)
        ensures
            r.value as int == self@.value,
    {
        PositionerState { value: self.value }
    }

    /// Stores `new_value` clamped into the positioner's range and reports
    /// the stored value.
    pub fn set(&mut self, new_value: i64) -> (r: PositionerState)
        requires
            pos_inv(old(self)@),
        ensures
            final(self)@.value == pos_clamp(old(self)@, new_value as int),
            final(self)@.min == old(self)@.min,
            final(self)@.max == old(self)@.max,
            final(self)@.def == old(self)@.def,
            pos_inv(final(self)@),
            r.value as int == final(self)@.value,
    {
        let mut v = new_value;
        if v > self.max {
            v = self.max;
        }
        if v < self.min {
            v = self.min;
        }
        self.value = v;
        self.get()
    }

    /// Drives the positioner to its maximum.
    pub fn set_max(&mut self) -> (r: PositionerState)
        requires
            pos_inv(old(self)@),
        ensures
            final(self)@.value == old(self)@.max,
            final(self)@.min == old(self)@.min,
            final(self)@.max == old(self)@.max,
            final(self)@.def == old(self)@.def,
            pos_inv(final(self)@),
            r.value as int == final(self)@.value,
    {
        let m = self.max;
        self.set(m)
    }

    /// Drives the positioner to its minimum.
    pub fn set_min(&mut self) -> (r: PositionerState)
        requires
            pos_inv(old(self)@),
        ensures
            final(self)@.value == old(self)@.min,
            final(self)@.min == old(self)@.min,
            final(self)@.max == old(self)@.max,
            final(self)@.def == old(self)@.def,
            pos_inv(final(self)@),
            r.value as int == final(self)@.value,
    {
        let m = self.min;
        self.set(m)
    }

    /// Returns the positioner to its default value.
    pub fn reset(&mut self) -> (r: PositionerState)
        requires
            pos_inv(old(self)@),
        ensures
            final(self)@.value == old(self)@.def,
            final(self)@.min == old(self)@.min,
            final(self)@.max == old(self)@.max,
            final(self)@.def == old(self)@.def,
            pos_inv(final(self)@),
            r.value as int == final(self)@.value,
    {
        self.value = self.def;
        self.get()
    }
}

/// Clamping is idempotent: a value that is already clamped is stored
/// unchanged, so setting the result of a clamp a second time changes
/// nothing.
pub proof fn lemma_clamp_idempotent(p: PosModel, v: int)
    requires
        pos_inv(p),
    ensures
        pos_clamp(p, pos_clamp(p, v)) == pos_clamp(p, v),
        p.min <= pos_clamp(p, v) <= p.max,
{
}

/// The positioner with `v` stored through a clamped set.
pub open spec fn pos_set(p: PosModel, v: int) -> PosModel {
    PosModel { value: pos_clamp(p, v), ..p }
}

/// Mathematical model of the sensor: status text, temperature and
/// humidity in hundredths, and the timestamp of the last refresh.
#[verifier::ext_equal]
pub struct SensorModel {
    pub status: Seq<char>,
    pub temp: int,
    pub hum: int,
    pub last: int,
}

/// A reading is refreshed only when at least two seconds have passed.
pub open spec fn sensor_due(s: SensorModel, now: int) -> bool {
    now >= s.last + 2000
}

/// The environmental sensor. Temperature and humidity are carried in
/// hundredths of a degree and of a percent; readings refresh at most
/// every two seconds, from a random source.
pub struct Sensor {
    status: String,
    temp_centi: i64,
    hum_centi: i64,
    last_update: u64,
}

/// Snapshot of a sensor reading, in hundredths.
pub struct SensorState {
    pub status: String,
    pub temperature: i64,
    pub humidity: i64,
}

impl View for Sensor {
    type V = SensorModel;

    closed spec fn view(&self) -> SensorModel {
        SensorModel {
            status: self.status@,
            temp: self.temp_centi as int,
            hum: self.hum_centi as int,
            last: self.last_update as int,
        }
    }
}

/// Relies on rand::random: draws a uniformly random 32-bit value.
/// Nothing can be promised of it.
#[verifier::external_body]
fn random_u32() -> u32 {
    rand::random::<u32>()
}

impl Sensor {
    /// A fresh sensor: status `OK`, 20 degrees, 50 percent humidity.
    pub fn new(now: u64) -> (r: Sensor)
        ensures
            r@.status == "OK"@,
            r@.temp == 2000,
            r@.hum == 5000,
            r@.last == now as int,
    {
        Sensor { status: String::from_str("OK"), temp_centi: 2000, hum_centi: 5000, last_update: now }
    }

    /// The current reading.
    pub fn get(&self) -> (r: SensorState)
        ensures
            r.status@ == self@.status,
            r.temperature as int == self@.temp,
            r.humidity as int == self@.hum,
    {
        SensorState {
            status: self.status.clone(),
            temperature: self.temp_centi,
            humidity: self.hum_centi,
        }
    }

    /// Refreshes the reading when two seconds have passed: a random
    /// temperature in [20, 30) degrees and humidity in [30, 70) percent.
    /// Reports whether anything changed.
    pub fn update(&mut self, now: u64) -> (changed: bool)
        ensures
            changed == sensor_due(old(self)@, now as int),
            final(self)@.status == old(self)@.status,
            changed ==> final(self)@.last == now as int && 2000 <= final(self)@.temp < 3000 && 3000
                <= final(self)@.hum < 7000,
            !changed ==> final(self)@ == old(self)@,
    {
        if now >= 2000 && now - 2000 >= self.last_update {
            self.last_update = now;
            let rt = random_u32() % 1000;
            let rh = random_u32() % 4000;
            self.temp_centi = 2000 + (rt as i64);
            self.hum_centi = 3000 + (rh as i64);
            true
        } else {
            false
        }
    }
}

/// One target action of a self-test step, per positioner.
#[derive(Debug, Clone, Copy, PartialEq, Eq, Structural)]
pub enum SelfTestCmd {
    Min,
    Max,
    Def,
}

/// The number of steps in the self-test sequence.
pub const SELF_TEST_LEN: usize = 5;

/// The hold duration of each self-test step, in milliseconds.
pub const SELF_TEST_STEP_MS: u64 = 500;

/// The scripted self-test sequence: the actions of step `i` for the red,
/// yellow and green LEDs and the servo, in that order.
pub open spec fn spec_step_cmds(i: int) -> (SelfTestCmd, SelfTestCmd, SelfTestCmd, SelfTestCmd) {
    if i == 1 {
        (SelfTestCmd::Max, SelfTestCmd::Min, SelfTestCmd::Min, SelfTestCmd::Min)
    } else if i == 2 {
        (SelfTestCmd::Min, SelfTestCmd::Max, SelfTestCmd::Min, SelfTestCmd::Def)
    } else if i == 3 {
        (SelfTestCmd::Min, SelfTestCmd::Min, SelfTestCmd::Max, SelfTestCmd::Max)
    } else {
        (SelfTestCmd::Def, SelfTestCmd::Def, SelfTestCmd::Def, SelfTestCmd::Def)
    }
}

fn step_cmds(i: usize) -> (r: (SelfTestCmd, SelfTestCmd, SelfTestCmd, SelfTestCmd))
    ensures
        r == spec_step_cmds(i as int),
{
    if i == 1 {
        (SelfTestCmd::Max, SelfTestCmd::Min, SelfTestCmd::Min, SelfTestCmd::Min)
    } else if i == 2 {
        (SelfTestCmd::Min, SelfTestCmd::Max, SelfTestCmd::Min, SelfTestCmd::Def)
    } else if i == 3 {
        (SelfTestCmd::Min, SelfTestCmd::Min, SelfTestCmd::Max, SelfTestCmd::Max)
    } else {
        (SelfTestCmd::Def, SelfTestCmd::Def, SelfTestCmd::Def, SelfTestCmd::Def)
    }
}

/// The positioner after one self-test action.
pub open spec fn pos_to(p: PosModel, c: SelfTestCmd) -> PosModel {
    match c {
        SelfTestCmd::Min => pos_set(p, p.min),
        SelfTestCmd::Max => pos_set(p, p.max),
        SelfTestCmd::Def => PosModel { value: p.def, ..p },
    }
}

/// Mathematical model of the whole device.
#[verifier::ext_equal]
pub struct BoxModel {
    pub red: PosModel,
    pub yellow: PosModel,
    pub green: PosModel,
    pub servo: PosModel,
    pub sensor: SensorModel,
    /// Index into the self-test sequence; `SELF_TEST_LEN` means idle.
    pub stage: int,
    /// The time the next self-test step becomes due.
    pub deadline: int,
}

/// Well-formedness of the device: every positioner holds its invariant
/// and the self-test stage stays within the sequence (its length meaning
/// idle).
pub open spec fn box_inv(b: BoxModel) -> bool {
    &&& pos_inv(b.red)
    &&& pos_inv(b.yellow)
    &&& pos_inv(b.green)
    &&& pos_inv(b.servo)
    &&& 0 <= b.stage <= SELF_TEST_LEN
}

/// Whether the self-test sequence is running.
pub open spec fn st_active(b: BoxModel) -> bool {
    b.stage < SELF_TEST_LEN
}

/// The reported progress: percent of steps done while active, else 0.
pub open spec fn st_progress(b: BoxModel) -> int {
    if st_active(b) {
        100 * b.stage / (SELF_TEST_LEN as int)
    } else {
        0
    }
}

/// Arming the sequencer: only from idle; re-arming an active run changes
/// nothing.
pub open spec fn st_start(b: BoxModel, now: int) -> BoxModel {
    if b.stage == SELF_TEST_LEN {
        BoxModel { stage: 0, deadline: now + SELF_TEST_STEP_MS, ..b }
    } else {
        b
    }
}

/// Disarming the sequencer: idle at once, whatever the progress was.
pub open spec fn st_stop(b: BoxModel) -> BoxModel {
    BoxModel { stage: SELF_TEST_LEN as int, ..b }
}

/// One timer tick's effect on the sequencer: if armed and due, the
/// current step's four actions are applied and the next step is
/// scheduled.
pub open spec fn st_step(b: BoxModel, now: int) -> BoxModel {
    if b.stage < SELF_TEST_LEN && now > b.deadline {
        let cmds = spec_step_cmds(b.stage);
        BoxModel {
            red: pos_to(b.red, cmds.0),
            yellow: pos_to(b.yellow, cmds.1),
            green: pos_to(b.green, cmds.2),
            servo: pos_to(b.servo, cmds.3),
            stage: b.stage + 1,
            deadline: now + SELF_TEST_STEP_MS,
            ..b
        }
    } else {
        b
    }
}

/// The value a GET on a positioner noun reports.
pub open spec fn noun_value(b: BoxModel, n: RequestNoun) -> int {
    match n {
        RequestNoun::RedLed => b.red.value,
        RequestNoun::YellowLed => b.yellow.value,
        RequestNoun::GreenLed => b.green.value,
        RequestNoun::Servo => b.servo.value,
        _ => 0,
    }
}

/// The device after a SET on a positioner noun.
pub open spec fn set_noun(b: BoxModel, n: RequestNoun, v: int) -> BoxModel {
    match n {
        RequestNoun::RedLed => BoxModel { red: pos_set(b.red, v), ..b },
        RequestNoun::YellowLed => BoxModel { yellow: pos_set(b.yellow, v), ..b },
        RequestNoun::GreenLed => BoxModel { green: pos_set(b.green, v), ..b },
        RequestNoun::Servo => BoxModel { servo: pos_set(b.servo, v), ..b },
        _ => b,
    }
}

/// The positioner a positioner noun addresses.
pub open spec fn pos_of(b: BoxModel, n: RequestNoun) -> PosModel {
    match n {
        RequestNoun::RedLed => b.red,
        RequestNoun::YellowLed => b.yellow,
        RequestNoun::GreenLed => b.green,
        _ => b.servo,
    }
}

/// A GET immediately after a SET on the same positioner noun reports
/// exactly the value the SET stored: the requested value clamped into
/// the positioner's range. Clamping is idempotent, so storing an
/// already-clamped value changes nothing.
pub proof fn lemma_get_after_set(b: BoxModel, n: RequestNoun, v: int)
    requires
        box_inv(b),
        spec_settable(n),
        n != RequestNoun::SelfTest,
    ensures
        noun_value(set_noun(b, n, v), n) == pos_clamp(pos_of(b, n), v),
        pos_of(b, n).min <= noun_value(set_noun(b, n, v), n) <= pos_of(b, n).max,
        set_noun(set_noun(b, n, v), n, pos_clamp(pos_of(b, n), v)) == set_noun(b, n, v),
{
    assert(set_noun(set_noun(b, n, v), n, pos_clamp(pos_of(b, n), v)) =~= set_noun(b, n, v));
}

/// Arming the sequencer from idle reports it active with progress 0.
pub proof fn lemma_self_test_arm(b: BoxModel, now: int)
    requires
        box_inv(b),
        !st_active(b),
    ensures
        st_active(st_start(b, now)),
        st_progress(st_start(b, now)) == 0,
        box_inv(st_start(b, now)),
{
}

/// Disarming the sequencer reports it idle with progress 0 at once,
/// whatever progress had been made.
pub proof fn lemma_self_test_stop(b: BoxModel)
    requires
        box_inv(b),
    ensures
        !st_active(st_stop(b)),
        st_progress(st_stop(b)) == 0,
        box_inv(st_stop(b)),
{
}

/// Once armed, a tick that finds each of the five step deadlines passed
/// runs the whole sequence: after the fifth such tick the sequencer is
/// idle again and reports progress 0.
pub proof fn lemma_self_test_completes(
    b: BoxModel,
    t0: int,
    n1: int,
    n2: int,
    n3: int,
    n4: int,
    n5: int,
)
    requires
        box_inv(b),
        !st_active(b),
        n1 > t0 + SELF_TEST_STEP_MS,
        n2 > n1 + SELF_TEST_STEP_MS,
        n3 > n2 + SELF_TEST_STEP_MS,
        n4 > n3 + SELF_TEST_STEP_MS,
        n5 > n4 + SELF_TEST_STEP_MS,
    ensures
        ({
            let armed = st_start(b, t0);
            let done = st_step(st_step(st_step(st_step(st_step(armed, n1), n2), n3), n4), n5);
            !st_active(done) && st_progress(done) == 0 && box_inv(done)
        }),
{
    let armed = st_start(b, t0);
    let b1 = st_step(armed, n1);
    lemma_st_step_inv(armed, n1);
    let b2 = st_step(b1, n2);
    lemma_st_step_inv(b1, n2);
    let b3 = st_step(b2, n3);
    lemma_st_step_inv(b2, n3);
    let b4 = st_step(b3, n4);
    lemma_st_step_inv(b3, n4);
    let b5 = st_step(b4, n5);
    lemma_st_step_inv(b4, n5);
    assert(b5.stage == SELF_TEST_LEN);
}

/// How one request relates the device state before and after it, and the
/// response: the full meaning of `TestBox::apply`.
pub open spec fn apply_rel(
    pre: BoxModel,
    req: Request,
    now: int,
    post: BoxModel,
    resp: Response,
) -> bool {
    match req {
        Request::Id => post == pre && (resp matches Response::Id(s) && s@
            == "ESP8266_WEMOS_D1MINI"@),
        Request::Get(n) => post == pre && (match n {
            RequestNoun::TempAndHum => resp matches Response::TempAndHum(st, t, h) && st@
                == pre.sensor.status && t as int == pre.sensor.temp && h as int == pre.sensor.hum,
            RequestNoun::SelfTest => resp matches Response::SelfTest(a, p) && a == st_active(pre)
                && p as int == st_progress(pre),
            _ => resp matches Response::Value(v) && v as int == noun_value(pre, n),
        }),
        Request::SetValue(n, v) => match n {
            RequestNoun::TempAndHum => post == pre && (resp matches Response::Error(e) && e
                == ResponseError::BadNoun),
            RequestNoun::SelfTest => if v == 1 {
                post == st_start(pre, now) && (resp matches Response::SelfTest(a, p) && a
                    == st_active(post) && p as int == st_progress(post))
            } else if v == 0 {
                post == st_stop(pre) && (resp matches Response::SelfTest(a, p) && a == false && p
                    == 0)
            } else {
                post == pre && (resp matches Response::Error(e) && e == ResponseError::BadValue)
            },
            _ => post == set_noun(pre, n, v as int) && (resp matches Response::Value(rv)
                && rv as int == noun_value(post, n) && rv as int == pos_clamp(
                match n {
                    RequestNoun::RedLed => pre.red,
                    RequestNoun::YellowLed => pre.yellow,
                    RequestNoun::GreenLed => pre.green,
                    _ => pre.servo,
                },
                v as int,
            )),
        },
    }
}

/// How one timer tick relates the device state before and after it: the
/// sensor refreshes (to values in range, from the random source) exactly
/// when due, and the sequencer advances exactly when armed and due.
pub open spec fn tick_rel(pre: BoxModel, now: int, post: BoxModel) -> bool {
    &&& post == st_step((BoxModel { sensor: post.sensor, ..pre }), now)
    &&& post.sensor.status == pre.sensor.status
    &&& sensor_due(pre.sensor, now) ==> post.sensor.last == now && 2000 <= post.sensor.temp < 3000
        && 3000 <= post.sensor.hum < 7000
    &&& !sensor_due(pre.sensor, now) ==> post.sensor == pre.sensor
}

/// Whether a tick at `now` changes anything.
pub open spec fn tick_changed(pre: BoxModel, now: int) -> bool {
    sensor_due(pre.sensor, now) || (st_active(pre) && now > pre.deadline)
}

/// Snapshot of the sequencer.
pub struct SelfTestState {
    pub active: bool,
    pub progress: i64,
}

/// Snapshot of the whole device at a point in time.
pub struct TestBoxState {
    pub red_led: PositionerState,
    pub yellow_led: PositionerState,
    pub green_led: PositionerState,
    pub servo: PositionerState,
    pub sensor: SensorState,
    pub self_test: SelfTestState,
}

/// The simulated device: three LED channels, a servo, the sensor, and
/// the self-test sequencer. It owns all mutable state; it answers
/// requests and advances with time.
pub struct TestBox {
    red_led: Positioner,
    yellow_led: Positioner,
    green_led: Positioner,
    servo: Positioner,
    sensor: Sensor,
    next_self_test_step: u64,
    self_test_stage: usize,
}

impl View for TestBox {
    type V = BoxModel;

    closed spec fn view(&self) -> BoxModel {
        BoxModel {
            red: self.red_led@,
            yellow: self.yellow_led@,
            green: self.green_led@,
            servo: self.servo@,
            sensor: self.sensor@,
            stage: self.self_test_stage as int,
            deadline: self.next_self_test_step as int,
        }
    }
}

proof fn lemma_pos_to_inv(p: PosModel, c: SelfTestCmd)
    requires
        pos_inv(p),
    ensures
        pos_inv(pos_to(p, c)),
        pos_to(p, c).min == p.min,
        pos_to(p, c).max == p.max,
        pos_to(p, c).def == p.def,
{
}

/// One self-test step keeps the device well formed.
pub proof fn lemma_st_step_inv(b: BoxModel, now: int)
    requires
        box_inv(b),
    ensures
        box_inv(st_step(b, now)),
{
    if b.stage < SELF_TEST_LEN && now > b.deadline {
        let cmds = spec_step_cmds(b.stage);
        lemma_pos_to_inv(b.red, cmds.0);
        lemma_pos_to_inv(b.yellow, cmds.1);
        lemma_pos_to_inv(b.green, cmds.2);
        lemma_pos_to_inv(b.servo, cmds.3);
    }
}

impl TestBox {
    /// A fresh device: LEDs off (range 0..=1023, default 0), servo at 90
    /// (range 0..=180), sensor at its initial reading, self-test idle.
    pub fn new(now: u64) -> (r: TestBox)
        ensures
            box_inv(r@),
            r@.red == (PosModel { min: 0, max: 1023, def: 0, value: 0 }),
            r@.yellow == (PosModel { min: 0, max: 1023, def: 0, value: 0 }),
            r@.green == (PosModel { min: 0, max: 1023, def: 0, value: 0 }),
            r@.servo == (PosModel { min: 0, max: 180, def: 90, value: 90 }),
            r@.sensor.status == "OK"@,
            r@.sensor.temp == 2000,
            r@.sensor.hum == 5000,
            r@.sensor.last == now as int,
            r@.stage == SELF_TEST_LEN,
            !st_active(r@),
    {
        TestBox {
            red_led: Positioner::new(0, 1023, 0),
            yellow_led: Positioner::new(0, 1023, 0),
            green_led: Positioner::new(0, 1023, 0),
            servo: Positioner::new(0, 180, 90),
            sensor: Sensor::new(now),
            next_self_test_step: now,
            self_test_stage: SELF_TEST_LEN,
        }
    }

    /// The sequencer's externally visible state.
    pub fn get_self_test(&self) -> (r: SelfTestState)
        requires
            box_inv(self@),
        ensures
            r.active == st_active(self@),
            r.progress as int == st_progress(self@),
    {
        let stage = self.self_test_stage;
        let active = stage < SELF_TEST_LEN;
        let progress: i64 = if active {
            ((100 * stage / SELF_TEST_LEN) as i64)
        } else {
            0
        };
        SelfTestState { active, progress }
    }

    /// A full snapshot of the device.
    pub fn get(&self) -> (r: TestBoxState)
        requires
            box_inv(self@),
        ensures
            r.red_led.value as int == self@.red.value,
            r.yellow_led.value as int == self@.yellow.value,
            r.green_led.value as int == self@.green.value,
            r.servo.value as int == self@.servo.value,
            r.sensor.status@ == self@.sensor.status,
            r.sensor.temperature as int == self@.sensor.temp,
            r.sensor.humidity as int == self@.sensor.hum,
            r.self_test.active == st_active(self@),
            r.self_test.progress as int == st_progress(self@),
    {
        TestBoxState {
            red_led: self.red_led.get(),
            yellow_led: self.yellow_led.get(),
            green_led: self.green_led.get(),
            servo: self.servo.get(),
            sensor: self.sensor.get(),
            self_test: self.get_self_test(),
        }
    }

    /// Arms the sequencer if it is idle; an active run is left alone.
    pub fn start_self_test(&mut self, now: u64) -> (r: SelfTestState)
        requires
            box_inv(old(self)@),
            now <= u64::MAX - SELF_TEST_STEP_MS,
        ensures
            box_inv(final(self)@),
            final(self)@ == st_start(old(self)@, now as int),
            r.active == st_active(final(self)@),
            r.progress as int == st_progress(final(self)@),
    {
        if self.self_test_stage == SELF_TEST_LEN {
            self.self_test_stage = 0;
            self.next_self_test_step = now + SELF_TEST_STEP_MS;
        }
        self.get_self_test()
    }

    /// Disarms the sequencer at once.
    pub fn stop_self_test(&mut self) -> (r: SelfTestState)
        requires
            box_inv(old(self)@),
        ensures
            box_inv(final(self)@),
            final(self)@ == st_stop(old(self)@),
            r.active == false,
            r.progress == 0,
    {
        self.self_test_stage = SELF_TEST_LEN;
        self.get_self_test()
    }

    /// Applies one self-test step when armed and due; reports whether it
    /// did.
    fn do_self_test_step(&mut self, now: u64) -> (changed: bool)
        requires
            box_inv(old(self)@),
            now <= u64::MAX - SELF_TEST_STEP_MS,
        ensures
            box_inv(final(self)@),
            final(self)@ == st_step(old(self)@, now as int),
            changed == (st_active(old(self)@) && now as int > old(self)@.deadline),
    {
        if self.self_test_stage < SELF_TEST_LEN && now > self.next_self_test_step {
            let cmds = step_cmds(self.self_test_stage);
            let c = cmds.0;
            match c {
                SelfTestCmd::Min => self.red_led.set_min(),
                SelfTestCmd::Max => self.red_led.set_max(),
                SelfTestCmd::Def => self.red_led.reset(),
            };
            let c = cmds.1;
            match c {
                SelfTestCmd::Min => self.yellow_led.set_min(),
                SelfTestCmd::Max => self.yellow_led.set_max(),
                SelfTestCmd::Def => self.yellow_led.reset(),
            };
            let c = cmds.2;
            match c {
                SelfTestCmd::Min => self.green_led.set_min(),
                SelfTestCmd::Max => self.green_led.set_max(),
                SelfTestCmd::Def => self.green_led.reset(),
            };
            let c = cmds.3;
            match c {
                SelfTestCmd::Min => self.servo.set_min(),
                SelfTestCmd::Max => self.servo.set_max(),
                SelfTestCmd::Def => self.servo.reset(),
            };
            self.next_self_test_step = now + SELF_TEST_STEP_MS;
            self.self_test_stage = self.self_test_stage + 1;
            proof {
                lemma_st_step_inv(old(self)@, now as int);
                assert(final(self)@ =~= st_step(old(self)@, now as int));
            }
            true
        } else {
            false
        }
    }

    /// Advances the device with time: refreshes the sensor when due and
    /// runs one self-test step when due. Reports whether anything
    /// changed, so the caller knows to publish a snapshot.
    pub fn tick(&mut self, now: u64) -> (changed: bool)
        requires
            box_inv(old(self)@),
            now <= u64::MAX - SELF_TEST_STEP_MS,
        ensures
            box_inv(final(self)@),
            tick_rel(old(self)@, now as int, final(self)@),
            changed == tick_changed(old(self)@, now as int),
    {
        let sensor_changed = self.sensor.update(now);
        proof {
            lemma_st_step_inv(self@, now as int);
        }
        let ghost mid: BoxModel = self@;
        let self_test_changed = self.do_self_test_step(now);
        proof {
            assert(mid =~= (BoxModel { sensor: final(self)@.sensor, ..old(self)@ }));
        }
        sensor_changed || self_test_changed
    }

    /// Answers one decoded request, mutating the device as the request
    /// demands: `ID` reports the fixed identity; `GET`/`SET` on a
    /// positioner noun read or clamp-store its value; the sensor answers
    /// `GET` only; `SET SELF_TEST 1` arms (a no-op while active),
    /// `SET SELF_TEST 0` disarms, any other value is an error.
    pub fn apply(&mut self, req: Request, now: u64) -> (resp: Response)
        requires
            box_inv(old(self)@),
            now <= u64::MAX - SELF_TEST_STEP_MS,
        ensures
            box_inv(final(self)@),
            apply_rel(old(self)@, req, now as int, final(self)@, resp),
    {
        match req {
            Request::Id => Response::Id(String::from_str("ESP8266_WEMOS_D1MINI")),
            Request::Get(RequestNoun::RedLed) => Response::Value(self.red_led.get().value),
            Request::Get(RequestNoun::YellowLed) => Response::Value(self.yellow_led.get().value),
            Request::Get(RequestNoun::GreenLed) => Response::Value(self.green_led.get().value),
            Request::Get(RequestNoun::Servo) => Response::Value(self.servo.get().value),
            Request::Get(RequestNoun::TempAndHum) => {
                let s = self.sensor.get();
                Response::TempAndHum(s.status, s.temperature, s.humidity)
            },
            Request::Get(RequestNoun::SelfTest) => {
                let s = self.get_self_test();
                Response::SelfTest(s.active, s.progress)
            },
            Request::SetValue(RequestNoun::RedLed, v) => Response::Value(self.red_led.set(v).value),
            Request::SetValue(RequestNoun::YellowLed, v) => Response::Value(
                self.yellow_led.set(v).value,
            ),
            Request::SetValue(RequestNoun::GreenLed, v) => Response::Value(
                self.green_led.set(v).value,
            ),
            Request::SetValue(RequestNoun::Servo, v) => Response::Value(self.servo.set(v).value),
            Request::SetValue(RequestNoun::SelfTest, v) => {
                if v == 1 {
                    let s = self.start_self_test(now);
                    Response::SelfTest(s.active, s.progress)
                } else if v == 0 {
                    let s = self.stop_self_test();
                    Response::SelfTest(s.active, s.progress)
                } else {
                    Response::Error(ResponseError::BadValue)
                }
            },
            Request::SetValue(RequestNoun::TempAndHum, _) => Response::Error(
                ResponseError::BadNoun,
            ),
        }
    }
}

} // verus!
