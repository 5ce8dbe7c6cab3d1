//! The line protocol codec: pure translation between bytes and domain
//! values. `Request::decode` turns one candidate line into a request or a
//! protocol error; `Response::encode` turns a response into wire bytes.

use vstd::prelude::*;
use vstd::slice::slice_subrange;
use vstd::utf8::encode_utf8;

verus! {

/// The addressable device attribute named in a GET/SET command.
#[derive(Debug, Clone, Copy, PartialEq, Eq, Hash, Structural)]
pub enum RequestNoun {
    RedLed,
    YellowLed,
    GreenLed,
    Servo,
    TempAndHum,
    SelfTest,
}

/// A validated client command.
#[derive(Debug, Clone, Copy, PartialEq, Eq, Structural)]
pub enum Request {
    Id,
    Get(RequestNoun),
    SetValue(RequestNoun, i64),
}

/// A protocol error, each with a stable wire code.
#[derive(Debug, Clone, Copy, PartialEq, Eq, Structural)]
pub enum ResponseError {
    BadSyntax,
    BadVerb,
    BadNoun,
    BadValue,
}

/// A reply to the client.
#[derive(Debug)]
pub enum Response {
    Id(String),
    Value(i64),
    /// Status text and the sensor reading, both temperature and humidity
    /// in hundredths of a unit.
    TempAndHum(String, i64, i64),
    SelfTest(bool, i64),
    Error(ResponseError),
}

/// Every noun may appear in a GET command.
pub open spec fn spec_gettable(n: RequestNoun) -> bool {
    true
}

/// Every noun but the sensor may appear in a SET command.
pub open spec fn spec_settable(n: RequestNoun) -> bool {
    n != RequestNoun::TempAndHum
}

impl RequestNoun {
    /// Membership in the gettable set.
    pub fn is_gettable(&self) -> (r: bool)
        ensures
            r == spec_gettable(*self),
    {
        true
    }

    /// Membership in the settable set.
    pub fn is_settable(&self) -> (r: bool)
        ensures
            r == spec_settable(*self),
    {
        !matches!(self, RequestNoun::TempAndHum)
    }
}

/// The wire name of each noun.
pub open spec fn spec_noun_name(n: RequestNoun) -> Seq<u8> {
    match n {
        RequestNoun::RedLed => seq![('R' as u8), ('E' as u8), ('D' as u8), ('_' as u8), ('L' as u8), ('E' as u8), ('D' as u8)],
        RequestNoun::YellowLed => seq![('Y' as u8), ('E' as u8), ('L' as u8), ('L' as u8), ('O' as u8), ('W' as u8), ('_' as u8), ('L' as u8), ('E' as u8), ('D' as u8)],
        RequestNoun::GreenLed => seq![('G' as u8), ('R' as u8), ('E' as u8), ('E' as u8), ('N' as u8), ('_' as u8), ('L' as u8), ('E' as u8), ('D' as u8)],
        RequestNoun::Servo => seq![('S' as u8), ('E' as u8), ('R' as u8), ('V' as u8), ('O' as u8)],
        RequestNoun::TempAndHum => seq![
            ('T' as u8),
            ('E' as u8),
            ('M' as u8),
            ('P' as u8),
            ('_' as u8),
            ('A' as u8),
            ('N' as u8),
            ('D' as u8),
            ('_' as u8),
            ('H' as u8),
            ('U' as u8),
            ('M' as u8),
        ],
        RequestNoun::SelfTest => seq![('S' as u8), ('E' as u8), ('L' as u8), ('F' as u8), ('_' as u8), ('T' as u8), ('E' as u8), ('S' as u8), ('T' as u8)],
    }
}

/// The noun a token names, if any.
pub open spec fn spec_noun(s: Seq<u8>) -> Option<RequestNoun> {
    if s == spec_noun_name(RequestNoun::RedLed) {
        Some(RequestNoun::RedLed)
    } else if s == spec_noun_name(RequestNoun::YellowLed) {
        Some(RequestNoun::YellowLed)
    } else if s == spec_noun_name(RequestNoun::GreenLed) {
        Some(RequestNoun::GreenLed)
    } else if s == spec_noun_name(RequestNoun::Servo) {
        Some(RequestNoun::Servo)
    } else if s == spec_noun_name(RequestNoun::TempAndHum) {
        Some(RequestNoun::TempAndHum)
    } else if s == spec_noun_name(RequestNoun::SelfTest) {
        Some(RequestNoun::SelfTest)
    } else {
        None
    }
}

/// The wire name of one noun, as bytes.
fn noun_name(n: RequestNoun) -> (r: Vec<u8>)
    ensures
        r@ == spec_noun_name(n),
{
    let mut v: Vec<u8> = Vec::new();
    match n {
        RequestNoun::RedLed => {
            v.push(('R' as u8));
            v.push(('E' as u8));
            v.push(('D' as u8));
            v.push(('_' as u8));
            v.push(('L' as u8));
            v.push(('E' as u8));
            v.push(('D' as u8));
        },
        RequestNoun::YellowLed => {
            v.push(('Y' as u8));
            v.push(('E' as u8));
            v.push(('L' as u8));
            v.push(('L' as u8));
            v.push(('O' as u8));
            v.push(('W' as u8));
            v.push(('_' as u8));
            v.push(('L' as u8));
            v.push(('E' as u8));
            v.push(('D' as u8));
        },
        RequestNoun::GreenLed => {
            v.push(('G' as u8));
            v.push(('R' as u8));
            v.push(('E' as u8));
            v.push(('E' as u8));
            v.push(('N' as u8));
            v.push(('_' as u8));
            v.push(('L' as u8));
            v.push(('E' as u8));
            v.push(('D' as u8));
        },
        RequestNoun::Servo => {
            v.push(('S' as u8));
            v.push(('E' as u8));
            v.push(('R' as u8));
            v.push(('V' as u8));
            v.push(('O' as u8));
        },
        RequestNoun::TempAndHum => {
            v.push(('T' as u8));
            v.push(('E' as u8));
            v.push(('M' as u8));
            v.push(('P' as u8));
            v.push(('_' as u8));
            v.push(('A' as u8));
            v.push(('N' as u8));
            v.push(('D' as u8));
            v.push(('_' as u8));
            v.push(('H' as u8));
            v.push(('U' as u8));
            v.push(('M' as u8));
        },
        RequestNoun::SelfTest => {
            v.push(('S' as u8));
            v.push(('E' as u8));
            v.push(('L' as u8));
            v.push(('F' as u8));
            v.push(('_' as u8));
            v.push(('T' as u8));
            v.push(('E' as u8));
            v.push(('S' as u8));
            v.push(('T' as u8));
        },
    }
    assert(v@ =~= spec_noun_name(n));
    v
}

/// Whether two byte slices hold the same bytes.
fn bytes_eq(a: &[u8], b: &[u8]) -> (r: bool)
    ensures
        r == (a@ == b@),
{
    if a.len() != b.len() {
        assert(a@ != b@) by {
            assert(a@.len() != b@.len());
        }
        return false;
    }
    let n = a.len();
    let mut i: usize = 0;
    while i < n
        invariant
            0 <= i <= n,
            n == a@.len() == b@.len(),
            forall|j: int| 0 <= j < i ==> a@[j] == b@[j],
        decreases n - i,
    {
        if a[i] != b[i] {
            return false;
        }
        i += 1;
    }
    assert(a@ =~= b@);
    true
}

/// Whether `c` is an ASCII decimal digit.
pub open spec fn is_digit(c: u8) -> bool {
    48 <= c <= 57
}

pub open spec fn all_digits(s: Seq<u8>) -> bool {
    forall|i: int| 0 <= i < s.len() ==> is_digit(s[i])
}

/// The number written by a sequence of ASCII digits, most significant
/// first.
pub open spec fn digits_val(s: Seq<u8>) -> int
    decreases s.len(),
{
    if s.len() == 0 {
        0
    } else {
        digits_val(s.drop_last()) * 10 + (s.last() - 48)
    }
}

/// What `str::parse::<i64>` accepts: an optional sign, then one or more
/// digits, the whole value fitting in an `i64`.
pub open spec fn spec_parse_i64(s: Seq<u8>) -> Option<i64> {
    if s.len() == 0 {
        None
    } else if s[0] == ('+' as u8) || s[0] == ('-' as u8) {
        if s.len() >= 2 && all_digits(s.skip(1)) {
            let m = digits_val(s.skip(1));
            if s[0] == ('-' as u8) {
                if m <= 9223372036854775808 {
                    Some((-m) as i64)
                } else {
                    None
                }
            } else {
                if m <= 9223372036854775807 {
                    Some(m as i64)
                } else {
                    None
                }
            }
        } else {
            None
        }
    } else {
        if all_digits(s) {
            let m = digits_val(s);
            if m <= 9223372036854775807 {
                Some(m as i64)
            } else {
                None
            }
        } else {
            None
        }
    }
}

proof fn lemma_digits_val_nonneg(s: Seq<u8>)
    requires
        all_digits(s),
    ensures
        digits_val(s) >= 0,
    decreases s.len(),
{
    if s.len() > 0 {
        assert(all_digits(s.drop_last()));
        lemma_digits_val_nonneg(s.drop_last());
    }
}

proof fn lemma_digits_val_step(s: Seq<u8>, i: int)
    requires
        0 <= i < s.len(),
    ensures
        digits_val(s.take(i + 1)) == digits_val(s.take(i)) * 10 + (s[i] - 48),
{
    assert(s.take(i + 1).drop_last() =~= s.take(i));
    assert(s.take(i + 1).last() == s[i]);
}

proof fn lemma_digits_val_mono(s: Seq<u8>, i: int)
    requires
        all_digits(s),
        0 <= i <= s.len(),
    ensures
        digits_val(s.take(i)) <= digits_val(s),
    decreases s.len() - i,
{
    if i < s.len() {
        lemma_digits_val_step(s, i);
        assert(all_digits(s.take(i)));
        lemma_digits_val_nonneg(s.take(i));
        lemma_digits_val_mono(s, i + 1);
    } else {
        assert(s.take(i) =~= s);
    }
}

proof fn lemma_parse_none_bad_digit(s: Seq<u8>, k: int)
    requires
        0 <= k < s.len(),
        !is_digit(s[k]),
        (s[0] == ('+' as u8) || s[0] == ('-' as u8)) ==> k >= 1,
    ensures
        spec_parse_i64(s) is None,
{
    if s[0] == ('+' as u8) || s[0] == ('-' as u8) {
        assert(s.skip(1)[k - 1] == s[k]);
        assert(!all_digits(s.skip(1)));
    } else {
        assert(!all_digits(s));
    }
}

proof fn lemma_parse_none_big(s: Seq<u8>, start: int, i: int)
    requires
        start == 0 || start == 1,
        start == 1 ==> s.len() >= 2 && (s[0] == ('+' as u8) || s[0] == ('-' as u8)),
        start == 0 ==> s.len() >= 1 && !(s[0] == ('+' as u8) || s[0] == ('-' as u8)),
        start <= i <= s.len(),
        digits_val(s.subrange(start, i)) > 9223372036854775808,
    ensures
        spec_parse_i64(s) is None,
{
    let ds = s.skip(start);
    assert(ds =~= s.subrange(start, s.len() as int));
    if all_digits(ds) {
        lemma_digits_val_mono(ds, i - start);
        assert(ds.take(i - start) =~= s.subrange(start, i));
    }
    if start == 0 {
        assert(ds =~= s);
    }
}

proof fn lemma_parse_done(s: Seq<u8>, start: int)
    requires
        start == 0 || start == 1,
        start == 1 ==> s.len() >= 2 && (s[0] == ('+' as u8) || s[0] == ('-' as u8)),
        start == 0 ==> s.len() >= 1 && !(s[0] == ('+' as u8) || s[0] == ('-' as u8)),
        start < s.len(),
        all_digits(s.skip(start)),
    ensures
        s[0] == ('-' as u8) && digits_val(s.skip(start)) <= 9223372036854775808 ==>
            spec_parse_i64(s) == Some((-digits_val(s.skip(start))) as i64),
        s[0] == ('-' as u8) && digits_val(s.skip(start)) > 9223372036854775808 ==> spec_parse_i64(
            s,
        ) is None,
        s[0] != ('-' as u8) && digits_val(s.skip(start)) <= 9223372036854775807 ==>
            spec_parse_i64(s) == Some(digits_val(s.skip(start)) as i64),
        s[0] != ('-' as u8) && digits_val(s.skip(start)) > 9223372036854775807 ==> spec_parse_i64(
            s,
        ) is None,
{
    if start == 0 {
        assert(s.skip(0) =~= s);
    }
}

/// Parses a signed base-10 integer exactly as `str::parse::<i64>` does on
/// ASCII input.
pub fn parse_i64(s: &[u8]) -> (r: Option<i64>)
    ensures
        r == spec_parse_i64(s@),
{
    let n = s.len();
    if n == 0 {
        return None;
    }
    let c0 = s[0];
    let neg = c0 == ('-' as u8);
    let signed = neg || c0 == ('+' as u8);
    let start: usize = if signed {
        1
    } else {
        0
    };
    if start >= n {
        return None;
    }
    let ghost ds: Seq<u8> = s@.skip(start as int);
    let mut i: usize = start;
    let mut acc: u128 = 0;
    while i < n
        invariant
            start <= i <= n,
            n == s@.len(),
            start < n,
            start == if signed { 1int } else { 0int },
            neg ==> signed,
            signed == (s@[0] == ('+' as u8) || s@[0] == ('-' as u8)),
            neg == (s@[0] == ('-' as u8)),
            ds == s@.skip(start as int),
            forall|j: int| start <= j < i ==> is_digit(s@[j]),
            acc == digits_val(s@.subrange(start as int, i as int)),
            acc <= 9223372036854775808u128,
        decreases n - i,
    {
        let c = s[i];
        if c < 48 || c > 57 {
            proof {
                lemma_parse_none_bad_digit(s@, i as int);
            }
            return None;
        }
        proof {
            lemma_digits_val_step(s@.subrange(start as int, n as int), i - start);
            assert(s@.subrange(start as int, n as int).take(i - start) =~= s@.subrange(
                start as int,
                i as int,
            ));
            assert(s@.subrange(start as int, n as int).take(i - start + 1) =~= s@.subrange(
                start as int,
                i as int + 1,
            ));
            assert(s@.subrange(start as int, n as int)[i - start] == s@[i as int]);
        }
        acc = acc * 10 + ((c - 48) as u128);
        i += 1;
        if acc > 9223372036854775808u128 {
            proof {
                lemma_parse_none_big(s@, start as int, i as int);
            }
            return None;
        }
    }
    proof {
        assert(ds =~= s@.subrange(start as int, n as int));
        assert(all_digits(ds));
        assert(acc == digits_val(ds));
        lemma_digits_val_nonneg(ds);
        lemma_parse_done(s@, start as int);
    }
    if neg {
        if acc == 9223372036854775808u128 {
            Some(i64::MIN)
        } else {
            Some(-(acc as i64))
        }
    } else {
        if acc >= 9223372036854775808u128 {
            None
        } else {
            Some(acc as i64)
        }
    }
}

/// The decimal digits of a nonnegative number, most significant first.
pub open spec fn spec_udigits(n: int) -> Seq<u8>
    decreases n,
{
    if n < 10 {
        seq![(48 + n) as u8]
    } else {
        spec_udigits(n / 10).push((48 + n % 10) as u8)
    }
}

pub open spec fn abs_int(v: int) -> int {
    if v < 0 {
        -v
    } else {
        v
    }
}

/// The decimal writing of a signed number.
pub open spec fn spec_fmt_i64(v: int) -> Seq<u8> {
    if v < 0 {
        seq![('-' as u8)] + spec_udigits(-v)
    } else {
        spec_udigits(v)
    }
}

fn fmt_u64(n: u64) -> (r: Vec<u8>)
    ensures
        r@ == spec_udigits(n as int),
    decreases n,
{
    if n < 10 {
        let mut v: Vec<u8> = Vec::new();
        v.push(48 + (n as u8));
        assert(v@ =~= spec_udigits(n as int));
        v
    } else {
        let mut v = fmt_u64(n / 10);
        v.push(48 + ((n % 10) as u8));
        assert(v@ =~= spec_udigits(n as int));
        v
    }
}

/// The magnitude of `v` as a `u64` (total, also at `i64::MIN`).
fn abs_u64(v: i64) -> (r: u64)
    ensures
        r as int == abs_int(v as int),
{
    if v < 0 {
        ((-(v + 1)) as u64) + 1
    } else {
        v as u64
    }
}

/// Writes `v` in decimal.
fn fmt_i64(v: i64) -> (r: Vec<u8>)
    ensures
        r@ == spec_fmt_i64(v as int),
{
    let m = abs_u64(v);
    if v < 0 {
        let mut out: Vec<u8> = Vec::new();
        out.push('-' as u8);
        let d = fmt_u64(m);
        push_bytes(&mut out, d.as_slice());
        assert(out@ =~= spec_fmt_i64(v as int));
        out
    } else {
        fmt_u64(m)
    }
}

/// Appends all of `src` to `out`.
fn push_bytes(out: &mut Vec<u8>, src: &[u8])
    ensures
        final(out)@ == old(out)@ + src@,
{
    let n = src.len();
    let mut i: usize = 0;
    while i < n
        invariant
            0 <= i <= n,
            n == src@.len(),
            out@ == old(out)@ + src@.take(i as int),
        decreases n - i,
    {
        out.push(src[i]);
        i += 1;
        proof {
            assert(old(out)@ + src@.take(i as int) =~= (old(out)@ + src@.take(i - 1)).push(
                src@[i - 1],
            ));
        }
    }
    proof {
        assert(src@.take(n as int) =~= src@);
    }
}

/// Two zero-padded decimal digits for a number below 100.
pub open spec fn spec_two_digits(n: int) -> Seq<u8> {
    seq![(48 + n / 10) as u8, (48 + n % 10) as u8]
}

/// A value counted in hundredths, written with two decimal places.
pub open spec fn spec_centi(c: int) -> Seq<u8> {
    (if c < 0 {
        seq![('-' as u8)]
    } else {
        Seq::<u8>::empty()
    }) + spec_udigits(abs_int(c) / 100) + seq![('.' as u8)] + spec_two_digits(abs_int(c) % 100)
}

fn fmt_centi(c: i64) -> (r: Vec<u8>)
    ensures
        r@ == spec_centi(c as int),
{
    let m = abs_u64(c);
    let mut out: Vec<u8> = Vec::new();
    if c < 0 {
        out.push('-' as u8);
    }
    let d = fmt_u64(m / 100);
    push_bytes(&mut out, d.as_slice());
    out.push('.' as u8);
    let frac = m % 100;
    out.push(48 + ((frac / 10) as u8));
    out.push(48 + ((frac % 10) as u8));
    proof {
        assert((m % 100) % 10 == (m as int) % 10) by {
            assert(m % 100 == (m as int) % 100);
        }
        assert(out@ =~= spec_centi(c as int));
    }
    out
}

/// The stable wire code of each protocol error.
pub open spec fn spec_err_code(e: ResponseError) -> Seq<u8> {
    match e {
        ResponseError::BadSyntax => seq![
            ('B' as u8),
            ('A' as u8),
            ('D' as u8),
            ('_' as u8),
            ('S' as u8),
            ('Y' as u8),
            ('N' as u8),
            ('T' as u8),
            ('A' as u8),
            ('X' as u8),
        ],
        ResponseError::BadVerb => seq![
            ('B' as u8),
            ('A' as u8),
            ('D' as u8),
            ('_' as u8),
            ('V' as u8),
            ('E' as u8),
            ('R' as u8),
            ('B' as u8),
        ],
        ResponseError::BadNoun => seq![
            ('B' as u8),
            ('A' as u8),
            ('D' as u8),
            ('_' as u8),
            ('N' as u8),
            ('O' as u8),
            ('U' as u8),
            ('N' as u8),
        ],
        ResponseError::BadValue => seq![
            ('B' as u8),
            ('A' as u8),
            ('D' as u8),
            ('_' as u8),
            ('V' as u8),
            ('A' as u8),
            ('L' as u8),
            ('U' as u8),
            ('E' as u8),
        ],
    }
}

impl ResponseError {
    /// The wire code as text.
    pub fn code(&self) -> (r: &'static str)
        ensures
            match *self {
                ResponseError::BadSyntax => r@ == "BAD_SYNTAX"@,
                ResponseError::BadVerb => r@ == "BAD_VERB"@,
                ResponseError::BadNoun => r@ == "BAD_NOUN"@,
                ResponseError::BadValue => r@ == "BAD_VALUE"@,
            },
    {
        match self {
            ResponseError::BadSyntax => "BAD_SYNTAX",
            ResponseError::BadVerb => "BAD_VERB",
            ResponseError::BadNoun => "BAD_NOUN",
            ResponseError::BadValue => "BAD_VALUE",
        }
    }

    /// The wire code as bytes.
    pub fn code_bytes(&self) -> (r: Vec<u8>)
        ensures
            r@ == spec_err_code(*self),
    {
        let mut v: Vec<u8> = Vec::new();
        v.push('B' as u8);
        v.push('A' as u8);
        v.push('D' as u8);
        v.push('_' as u8);
        match self {
            ResponseError::BadSyntax => {
                v.push('S' as u8);
                v.push('Y' as u8);
                v.push('N' as u8);
                v.push('T' as u8);
                v.push('A' as u8);
                v.push('X' as u8);
            },
            ResponseError::BadVerb => {
                v.push('V' as u8);
                v.push('E' as u8);
                v.push('R' as u8);
                v.push('B' as u8);
            },
            ResponseError::BadNoun => {
                v.push('N' as u8);
                v.push('O' as u8);
                v.push('U' as u8);
                v.push('N' as u8);
            },
            ResponseError::BadValue => {
                v.push('V' as u8);
                v.push('A' as u8);
                v.push('L' as u8);
                v.push('U' as u8);
                v.push('E' as u8);
            },
        }
        assert(v@ =~= spec_err_code(*self));
        v
    }
}

pub open spec fn spec_ok_prefix() -> Seq<u8> {
    seq![('O' as u8), ('K' as u8), (' ' as u8)]
}

pub open spec fn spec_err_prefix() -> Seq<u8> {
    seq![('E' as u8), ('R' as u8), ('R' as u8), (' ' as u8)]
}

pub open spec fn spec_crlf() -> Seq<u8> {
    seq![('\r' as u8), ('\n' as u8)]
}

/// The wire bytes of a response: `OK ...` or `ERR <code>`, terminated by
/// CR LF. Temperature and humidity are written with two decimal places.
pub open spec fn spec_encode(r: Response) -> Seq<u8> {
    match r {
        Response::Id(s) => spec_ok_prefix() + encode_utf8(s@) + spec_crlf(),
        Response::Value(v) => spec_ok_prefix() + spec_fmt_i64(v as int) + spec_crlf(),
        Response::TempAndHum(s, t, h) => spec_ok_prefix() + encode_utf8(s@) + seq![(' ' as u8)]
            + spec_centi(t as int) + seq![(' ' as u8)] + spec_centi(h as int) + spec_crlf(),
        Response::SelfTest(a, p) => spec_ok_prefix() + seq![
            if a {
                ('1' as u8)
            } else {
                ('0' as u8)
            },
        ] + seq![(' ' as u8)] + spec_fmt_i64(p as int) + spec_crlf(),
        Response::Error(e) => spec_err_prefix() + spec_err_code(e) + spec_crlf(),
    }
}

impl Response {
    /// Encodes the response for the wire.
    pub fn encode(&self) -> (r: Vec<u8>)
        ensures
            r@ == spec_encode(*self),
    {
        let mut out: Vec<u8> = Vec::new();
        match self {
            Response::Error(e) => {
                out.push('E' as u8);
                out.push('R' as u8);
                out.push('R' as u8);
                out.push(' ' as u8);
                let code = e.code_bytes();
                push_bytes(&mut out, code.as_slice());
            },
            Response::Id(s) => {
                out.push('O' as u8);
                out.push('K' as u8);
                out.push(' ' as u8);
                push_bytes(&mut out, s.as_str().as_bytes());
            },
            Response::Value(v) => {
                out.push('O' as u8);
                out.push('K' as u8);
                out.push(' ' as u8);
                let d = fmt_i64(*v);
                push_bytes(&mut out, d.as_slice());
            },
            Response::TempAndHum(s, t, h) => {
                out.push('O' as u8);
                out.push('K' as u8);
                out.push(' ' as u8);
                push_bytes(&mut out, s.as_str().as_bytes());
                out.push(' ' as u8);
                let td = fmt_centi(*t);
                push_bytes(&mut out, td.as_slice());
                out.push(' ' as u8);
                let hd = fmt_centi(*h);
                push_bytes(&mut out, hd.as_slice());
            },
            Response::SelfTest(a, p) => {
                out.push('O' as u8);
                out.push('K' as u8);
                out.push(' ' as u8);
                out.push(if *a {
                    '1' as u8
                } else {
                    '0' as u8
                });
                out.push(' ' as u8);
                let d = fmt_i64(*p);
                push_bytes(&mut out, d.as_slice());
            },
        }
        out.push('\r' as u8);
        out.push('\n' as u8);
        assert(out@ =~= spec_encode(*self));
        out
    }
}

impl RequestNoun {
    /// Parses a noun token, mirroring the wire-name table.
    pub fn from_bytes(data: &[u8]) -> (r: Result<RequestNoun, ResponseError>)
        ensures
            r == (match spec_noun(data@) {
                Some(n) => Result::<RequestNoun, ResponseError>::Ok(n),
                None => Result::<RequestNoun, ResponseError>::Err(ResponseError::BadNoun),
            }),
    {
        let names: [RequestNoun; 6] = [
            RequestNoun::RedLed,
            RequestNoun::YellowLed,
            RequestNoun::GreenLed,
            RequestNoun::Servo,
            RequestNoun::TempAndHum,
            RequestNoun::SelfTest,
        ];
        let mut i: usize = 0;
        while i < 6
            invariant
                0 <= i <= 6,
                names@ =~= seq![
                    RequestNoun::RedLed,
                    RequestNoun::YellowLed,
                    RequestNoun::GreenLed,
                    RequestNoun::Servo,
                    RequestNoun::TempAndHum,
                    RequestNoun::SelfTest,
                ],
                forall|j: int| 0 <= j < i ==> data@ != spec_noun_name(names@[j]),
            decreases 6 - i,
        {
            let name = noun_name(names[i]);
            if bytes_eq(data, name.as_slice()) {
                return Ok(names[i]);
            }
            i += 1;
        }
        Err(ResponseError::BadNoun)
    }
}

/// The index of the first line feed, if any.
pub open spec fn first_lf(s: Seq<u8>) -> Option<int>
    decreases s.len(),
{
    if s.len() == 0 {
        None
    } else if s[0] == 10 {
        Some(0)
    } else {
        match first_lf(s.skip(1)) {
            None => None,
            Some(i) => Some(i + 1),
        }
    }
}

/// The index of the last carriage return, if any.
pub open spec fn last_cr(s: Seq<u8>) -> Option<int>
    decreases s.len(),
{
    if s.len() == 0 {
        None
    } else if s[s.len() - 1] == 13 {
        Some(s.len() - 1)
    } else {
        last_cr(s.drop_last())
    }
}

/// The sequence without its leading spaces.
pub open spec fn skip_spaces(s: Seq<u8>) -> Seq<u8>
    decreases s.len(),
{
    if s.len() > 0 && s[0] == 32 {
        skip_spaces(s.skip(1))
    } else {
        s
    }
}

/// The length of the maximal space-free prefix.
pub open spec fn token_len(s: Seq<u8>) -> int
    decreases s.len(),
{
    if s.len() > 0 && s[0] != 32 {
        1 + token_len(s.skip(1))
    } else {
        0
    }
}

proof fn lemma_first_lf_at(s: Seq<u8>, i: int)
    requires
        0 <= i < s.len(),
        s[i] == 10,
        forall|j: int| 0 <= j < i ==> s[j] != 10,
    ensures
        first_lf(s) == Some(i),
    decreases i,
{
    if i > 0 {
        assert forall|j: int| 0 <= j < i - 1 implies s.skip(1)[j] != 10 by {
            assert(s.skip(1)[j] == s[j + 1]);
        }
        assert(s.skip(1)[i - 1] == s[i]);
        lemma_first_lf_at(s.skip(1), i - 1);
    }
}

proof fn lemma_first_lf_none(s: Seq<u8>)
    requires
        forall|j: int| 0 <= j < s.len() ==> s[j] != 10,
    ensures
        first_lf(s) is None,
    decreases s.len(),
{
    if s.len() > 0 {
        assert forall|j: int| 0 <= j < s.skip(1).len() implies s.skip(1)[j] != 10 by {
            assert(s.skip(1)[j] == s[j + 1]);
        }
        lemma_first_lf_none(s.skip(1));
    }
}

proof fn lemma_first_lf_bounds(s: Seq<u8>)
    ensures
        match first_lf(s) {
            Some(i) => 0 <= i < s.len() && s[i] == 10,
            None => true,
        },
    decreases s.len(),
{
    if s.len() > 0 && s[0] != 10 {
        lemma_first_lf_bounds(s.skip(1));
    }
}

proof fn lemma_last_cr_at(s: Seq<u8>, i: int)
    requires
        0 <= i < s.len(),
        s[i] == 13,
        forall|j: int| i < j < s.len() ==> s[j] != 13,
    ensures
        last_cr(s) == Some(i),
    decreases s.len(),
{
    if i < s.len() - 1 {
        assert(s[s.len() - 1] != 13);
        assert forall|j: int| i < j < s.drop_last().len() implies s.drop_last()[j] != 13 by {
            assert(s.drop_last()[j] == s[j]);
        }
        assert(s.drop_last()[i] == s[i]);
        lemma_last_cr_at(s.drop_last(), i);
    }
}

proof fn lemma_last_cr_none(s: Seq<u8>)
    requires
        forall|j: int| 0 <= j < s.len() ==> s[j] != 13,
    ensures
        last_cr(s) is None,
    decreases s.len(),
{
    if s.len() > 0 {
        assert forall|j: int| 0 <= j < s.drop_last().len() implies s.drop_last()[j] != 13 by {
            assert(s.drop_last()[j] == s[j]);
        }
        lemma_last_cr_none(s.drop_last());
    }
}

proof fn lemma_skip_spaces_at(s: Seq<u8>, k: int)
    requires
        0 <= k <= s.len(),
        forall|j: int| 0 <= j < k ==> s[j] == 32,
        k == s.len() || s[k] != 32,
    ensures
        skip_spaces(s) == s.skip(k),
    decreases k,
{
    if k == 0 {
        assert(s.skip(0) =~= s);
    } else {
        assert(s[0] == 32);
        assert forall|j: int| 0 <= j < k - 1 implies s.skip(1)[j] == 32 by {
            assert(s.skip(1)[j] == s[j + 1]);
        }
        assert(k - 1 == s.skip(1).len() || s.skip(1)[k - 1] != 32);
        lemma_skip_spaces_at(s.skip(1), k - 1);
        assert(s.skip(1).skip(k - 1) =~= s.skip(k));
    }
}

proof fn lemma_token_len_at(s: Seq<u8>, k: int)
    requires
        0 <= k <= s.len(),
        forall|j: int| 0 <= j < k ==> s[j] != 32,
        k == s.len() || s[k] == 32,
    ensures
        token_len(s) == k,
    decreases k,
{
    if k == 0 {
    } else {
        assert(s[0] != 32);
        assert forall|j: int| 0 <= j < k - 1 implies s.skip(1)[j] != 32 by {
            assert(s.skip(1)[j] == s[j + 1]);
        }
        assert(k - 1 == s.skip(1).len() || s.skip(1)[k - 1] == 32);
        lemma_token_len_at(s.skip(1), k - 1);
    }
}

/// The candidate line without one trailing carriage return.
pub open spec fn seg_core(seg: Seq<u8>) -> Seq<u8> {
    if seg.len() > 0 && seg[seg.len() - 1] == 13 {
        seg.drop_last()
    } else {
        seg
    }
}

/// The part of the core after its last carriage return: a match may not
/// span one.
pub open spec fn region_of(core: Seq<u8>) -> Seq<u8> {
    match last_cr(core) {
        None => core,
        Some(i) => core.skip(i + 1),
    }
}

/// The capture groups the grammar finds in one candidate line: the verb
/// token, an optional noun token, and an optional greedy value capture
/// (its single leading space already removed). `None` when the line holds
/// no match.
pub open spec fn seg_captures(seg: Seq<u8>) -> Option<(Seq<u8>, Option<Seq<u8>>, Option<Seq<u8>>)> {
    let s = skip_spaces(region_of(seg_core(seg)));
    if s.len() == 0 {
        None
    } else {
        let n1 = token_len(s);
        let t1 = s.take(n1);
        let r = s.skip(n1);
        if r.len() == 0 {
            Some((t1, None, None))
        } else {
            let q = r.skip(1);
            if q.len() == 0 {
                None
            } else if q[0] != 32 {
                let n2 = token_len(q);
                let t2 = q.take(n2);
                let r2 = q.skip(n2);
                if r2.len() == 0 {
                    Some((t1, Some(t2), None))
                } else if r2.len() == 1 {
                    Some((t1, None, Some(q)))
                } else {
                    Some((t1, Some(t2), Some(r2.skip(1))))
                }
            } else {
                Some((t1, None, Some(q)))
            }
        }
    }
}

/// How a matched line is classified: the verb decides, then the noun,
/// then the value, in that order of error precedence.
pub open spec fn spec_dispatch(
    verb: Seq<u8>,
    noun: Option<Seq<u8>>,
    value: Option<Seq<u8>>,
) -> Result<Request, ResponseError> {
    if verb == seq![('I' as u8), ('D' as u8)] {
        if noun is Some {
            Err(ResponseError::BadNoun)
        } else {
            Ok(Request::Id)
        }
    } else if verb == seq![('G' as u8), ('E' as u8), ('T' as u8)] || verb == seq![
        ('S' as u8),
        ('E' as u8),
        ('T' as u8),
    ] {
        let get = verb == seq![('G' as u8), ('E' as u8), ('T' as u8)];
        match noun {
            None => Err(ResponseError::BadNoun),
            Some(nb) => match spec_noun(nb) {
                None => Err(ResponseError::BadNoun),
                Some(nn) => if get {
                    if !spec_gettable(nn) {
                        Err(ResponseError::BadNoun)
                    } else if value is Some {
                        Err(ResponseError::BadValue)
                    } else {
                        Ok(Request::Get(nn))
                    }
                } else {
                    if !spec_settable(nn) {
                        Err(ResponseError::BadNoun)
                    } else {
                        match value {
                            None => Err(ResponseError::BadValue),
                            Some(vb) => match spec_parse_i64(vb) {
                                None => Err(ResponseError::BadValue),
                                Some(v) => Ok(Request::SetValue(nn, v)),
                            },
                        }
                    }
                },
            },
        }
    } else {
        Err(ResponseError::BadVerb)
    }
}

/// What decoding a byte sequence yields: the first line (ending at a line
/// feed) that the grammar matches is classified; no line feed at all, or
/// no matching line, is a syntax error.
pub open spec fn spec_decode(data: Seq<u8>) -> Result<Request, ResponseError>
    decreases data.len(),
    via spec_decode_dec
{
    match first_lf(data) {
        None => Err(ResponseError::BadSyntax),
        Some(nl) => match seg_captures(data.take(nl)) {
            Some(caps) => spec_dispatch(caps.0, caps.1, caps.2),
            None => spec_decode(data.skip(nl + 1)),
        },
    }
}

#[via_fn]
proof fn spec_decode_dec(data: Seq<u8>) {
    lemma_first_lf_bounds(data);
}

fn is_verb_id(v: &[u8]) -> (b: bool)
    ensures
        b == (v@ == seq![('I' as u8), ('D' as u8)]),
{
    let r = v.len() == 2 && v[0] == ('I' as u8) && v[1] == ('D' as u8);
    proof {
        if r {
            assert(v@ =~= seq![('I' as u8), ('D' as u8)]);
        }
    }
    r
}

fn is_verb_get(v: &[u8]) -> (b: bool)
    ensures
        b == (v@ == seq![('G' as u8), ('E' as u8), ('T' as u8)]),
{
    let r = v.len() == 3 && v[0] == ('G' as u8) && v[1] == ('E' as u8) && v[2] == ('T' as u8);
    proof {
        if r {
            assert(v@ =~= seq![('G' as u8), ('E' as u8), ('T' as u8)]);
        }
    }
    r
}

fn is_verb_set(v: &[u8]) -> (b: bool)
    ensures
        b == (v@ == seq![('S' as u8), ('E' as u8), ('T' as u8)]),
{
    let r = v.len() == 3 && v[0] == ('S' as u8) && v[1] == ('E' as u8) && v[2] == ('T' as u8);
    proof {
        if r {
            assert(v@ =~= seq![('S' as u8), ('E' as u8), ('T' as u8)]);
        }
    }
    r
}

fn dispatch(verb: &[u8], noun: Option<&[u8]>, value: Option<&[u8]>) -> (r: Result<
    Request,
    ResponseError,
>)
    ensures
        r == spec_dispatch(
            verb@,
            match noun {
                Some(s) => Some(s@),
                None => None,
            },
            match value {
                Some(s) => Some(s@),
                None => None,
            },
        ),
{
    if is_verb_id(verb) {
        match noun {
            Some(_) => Err(ResponseError::BadNoun),
            None => Ok(Request::Id),
        }
    } else if is_verb_get(verb) || is_verb_set(verb) {
        let get = is_verb_get(verb);
        match noun {
            None => Err(ResponseError::BadNoun),
            Some(nb) => match RequestNoun::from_bytes(nb) {
                Err(e) => Err(e),
                Ok(nn) => {
                    if get {
                        if !nn.is_gettable() {
                            Err(ResponseError::BadNoun)
                        } else {
                            match value {
                                Some(_) => Err(ResponseError::BadValue),
                                None => Ok(Request::Get(nn)),
                            }
                        }
                    } else {
                        if !nn.is_settable() {
                            Err(ResponseError::BadNoun)
                        } else {
                            match value {
                                None => Err(ResponseError::BadValue),
                                Some(vb) => match parse_i64(vb) {
                                    None => Err(ResponseError::BadValue),
                                    Some(v) => Ok(Request::SetValue(nn, v)),
                                },
                            }
                        }
                    }
                },
            },
        }
    } else {
        Err(ResponseError::BadVerb)
    }
}


/// The capture groups found in one line, as slices of it.
struct LineCaps<'a> {
    verb: &'a [u8],
    noun: Option<&'a [u8]>,
    value: Option<&'a [u8]>,
}

/// Computes the grammar's capture groups for one candidate line (the
/// bytes before the line feed).
#[verifier::rlimit(100)]
fn line_captures<'a>(seg: &'a [u8]) -> (r: Option<LineCaps<'a>>)
    ensures
        match seg_captures(seg@) {
            None => r is None,
            Some(g) => match r {
                Some(c) => c.verb@ == g.0 && (match (c.noun, g.1) {
                    (Some(a), Some(b)) => a@ == b,
                    (None, None) => true,
                    _ => false,
                }) && (match (c.value, g.2) {
                    (Some(a), Some(b)) => a@ == b,
                    (None, None) => true,
                    _ => false,
                }),
                None => false,
            },
        },
{
    let n = seg.len();
    let core_len: usize = if n > 0 && seg[n - 1] == 13 {
        n - 1
    } else {
        n
    };
    let ghost core: Seq<u8> = seg@.take(core_len as int);
    proof {
        assert(seg_core(seg@) =~= core);
    }
    let mut rs: usize = 0;
    let mut j: usize = 0;
    while j < core_len
        invariant
            0 <= j <= core_len <= n,
            n == seg@.len(),
            rs == 0 ==> forall|k: int| 0 <= k < j ==> seg@[k] != 13,
            rs >= 1 ==> rs <= j && seg@[rs - 1] == 13 && forall|k: int|
                rs <= k < j ==> seg@[k] != 13,
        decreases core_len - j,
    {
        if seg[j] == 13 {
            rs = j + 1;
        }
        j += 1;
    }
    let ghost region: Seq<u8> = seg@.subrange(rs as int, core_len as int);
    proof {
        assert forall|k: int| 0 <= k < core_len implies core[k] == seg@[k] by {}
        if rs == 0 {
            lemma_last_cr_none(core);
        } else {
            lemma_last_cr_at(core, rs - 1);
        }
        assert(region_of(core) =~= region);
    }
    let mut ss: usize = rs;
    while ss < core_len && seg[ss] == 32
        invariant
            rs <= ss <= core_len <= n,
            n == seg@.len(),
            forall|k: int| rs <= k < ss ==> seg@[k] == 32,
        decreases core_len - ss,
    {
        ss += 1;
    }
    let ghost sv: Seq<u8> = seg@.subrange(ss as int, core_len as int);
    proof {
        assert forall|k: int| 0 <= k < ss - rs implies region[k] == 32 by {
            assert(region[k] == seg@[rs + k]);
        }
        if ss < core_len {
            assert(region[ss - rs] == seg@[ss as int]);
        }
        lemma_skip_spaces_at(region, ss - rs);
        assert(region.skip(ss - rs) =~= sv);
        assert(skip_spaces(region_of(seg_core(seg@))) == sv);
    }
    if ss == core_len {
        proof {
            assert(sv.len() == 0);
            assert(seg_captures(seg@) is None);
        }
        return None;
    }
    let mut t1e: usize = ss;
    while t1e < core_len && seg[t1e] != 32
        invariant
            ss <= t1e <= core_len <= n,
            n == seg@.len(),
            forall|k: int| ss <= k < t1e ==> seg@[k] != 32,
        decreases core_len - t1e,
    {
        t1e += 1;
    }
    proof {
        assert forall|k: int| 0 <= k < t1e - ss implies sv[k] != 32 by {
            assert(sv[k] == seg@[ss + k]);
        }
        if t1e < core_len {
            assert(sv[t1e - ss] == seg@[t1e as int]);
        }
        lemma_token_len_at(sv, t1e - ss);
    }
    let verb = slice_subrange(seg, ss, t1e);
    proof {
        assert(verb@ =~= sv.take(t1e - ss));
    }
    if t1e == core_len {
        proof {
            assert(sv.skip(t1e - ss).len() == 0);
            assert(seg_captures(seg@) == Some(
                (verb@, Option::<Seq<u8>>::None, Option::<Seq<u8>>::None),
            ));
        }
        return Some(LineCaps { verb, noun: None, value: None });
    }
    // seg[t1e] is a space; what follows it is the q region
    let qs: usize = t1e + 1;
    let ghost q: Seq<u8> = seg@.subrange(qs as int, core_len as int);
    proof {
        assert(sv.skip(t1e - ss).len() == core_len - t1e);
        assert(sv.skip(t1e - ss).skip(1) =~= q);
    }
    if qs == core_len {
        proof {
            assert(seg_captures(seg@) is None);
        }
        return None;
    }
    if seg[qs] != 32 {
        let mut t2e: usize = qs;
        while t2e < core_len && seg[t2e] != 32
            invariant
                qs <= t2e <= core_len <= n,
                n == seg@.len(),
                forall|k: int| qs <= k < t2e ==> seg@[k] != 32,
            decreases core_len - t2e,
        {
            t2e += 1;
        }
        proof {
            assert forall|k: int| 0 <= k < t2e - qs implies q[k] != 32 by {
                assert(q[k] == seg@[qs + k]);
            }
            if t2e < core_len {
                assert(q[t2e - qs] == seg@[t2e as int]);
            }
            lemma_token_len_at(q, t2e - qs);
        }
        let t2 = slice_subrange(seg, qs, t2e);
        proof {
            assert(t2@ =~= q.take(t2e - qs));
            assert(q.skip(t2e - qs) =~= seg@.subrange(t2e as int, core_len as int));
        }
        if t2e == core_len {
            proof {
                assert(seg_captures(seg@) == Some((verb@, Some(t2@), Option::<Seq<u8>>::None)));
            }
            return Some(LineCaps { verb, noun: Some(t2), value: None });
        }
        if t2e + 1 == core_len {
            let qslice = slice_subrange(seg, qs, core_len);
            proof {
                assert(q.skip(t2e - qs).len() == 1);
                assert(qslice@ =~= q);
                assert(seg_captures(seg@) == Some((verb@, Option::<Seq<u8>>::None, Some(q))));
            }
            return Some(LineCaps { verb, noun: None, value: Some(qslice) });
        }
        let vslice = slice_subrange(seg, t2e + 1, core_len);
        proof {
            assert(q.skip(t2e - qs).len() >= 2);
            assert(vslice@ =~= q.skip(t2e - qs).skip(1));
            assert(seg_captures(seg@) == Some((verb@, Some(t2@), Some(vslice@))));
        }
        return Some(LineCaps { verb, noun: Some(t2), value: Some(vslice) });
    }
    let qslice = slice_subrange(seg, qs, core_len);
    proof {
        assert(qslice@ =~= q);
        assert(seg_captures(seg@) == Some((verb@, Option::<Seq<u8>>::None, Some(q))));
    }
    Some(LineCaps { verb, noun: None, value: Some(qslice) })
}

impl Request {
    /// Decodes one candidate line. The grammar is
    /// `VERB (SP NOUN (SP VALUE)?)? CR? LF`, with error precedence syntax,
    /// verb, noun, value.
    pub fn decode(data: &[u8]) -> (r: Result<Request, ResponseError>)
        ensures
            r == spec_decode(data@),
        decreases data@.len(),
    {
        let n = data.len();
        let mut nl: usize = 0;
        while nl < n && data[nl] != 10
            invariant
                0 <= nl <= n,
                n == data@.len(),
                forall|j: int| 0 <= j < nl ==> data@[j] != 10,
            decreases n - nl,
        {
            nl += 1;
        }
        if nl == n {
            proof {
                lemma_first_lf_none(data@);
            }
            return Err(ResponseError::BadSyntax);
        }
        proof {
            lemma_first_lf_at(data@, nl as int);
        }
        let seg = slice_subrange(data, 0, nl);
        proof {
            assert(seg@ =~= data@.take(nl as int));
        }
        match line_captures(seg) {
            Some(c) => dispatch(c.verb, c.noun, c.value),
            None => {
                let rest = slice_subrange(data, nl + 1, n);
                proof {
                    assert(rest@ =~= data@.skip(nl + 1));
                }
                Self::decode(rest)
            },
        }
    }
}

} // verus!
