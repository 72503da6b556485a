//! Which secrets a rotation replaces, and with what.
use vstd::prelude::*;
use vstd::string::StringSliceAdditionalSpecFns;
use vstd::utf8::encode_utf8;
use sha2::Digest;
use crate::api::EnvVariable;
use crate::config::RotationConfig;
use crate::text::chars_of;

verus! {

/// The SHA-256 digest of a byte string.
pub uninterp spec fn sha256_of(data: Seq<u8>) -> Seq<u8>;

/// The instant an RFC 3339 text names, in seconds since the Unix epoch; none if it is not valid.
pub uninterp spec fn rfc3339_seconds(text: Seq<char>) -> Option<i64>;

/// Relies on sha2's `Sha256` (`new`, `update`, `finalize`): the digest of the input, 32 bytes.
#[verifier::external_body]
fn sha256(data: &[u8]) -> (r: Vec<u8>)
    ensures
        r@ == sha256_of(data@),
        r@.len() == 32,
{
    let mut hasher = sha2::Sha256::new();
    hasher.update(data);
    hasher.finalize().to_vec()
}

/// Relies on `hex::encode`: two lowercase digits per byte, high half first.
#[verifier::external_body]
fn hex_encode(bytes: &[u8]) -> (r: String)
    ensures
        r@ == hex_lower(bytes@),
{
    hex::encode(bytes)
}

fn digit_str(d: u64) -> (r: &'static str)
    requires
        d < 10,
    ensures
        r@ == seq![digit_char(d as int)],
{
    proof {
        reveal_strlit("0");
        reveal_strlit("1");
        reveal_strlit("2");
        reveal_strlit("3");
        reveal_strlit("4");
        reveal_strlit("5");
        reveal_strlit("6");
        reveal_strlit("7");
        reveal_strlit("8");
        reveal_strlit("9");
    }
    let r = if d == 0 {
        "0"
    } else if d == 1 {
        "1"
    } else if d == 2 {
        "2"
    } else if d == 3 {
        "3"
    } else if d == 4 {
        "4"
    } else if d == 5 {
        "5"
    } else if d == 6 {
        "6"
    } else if d == 7 {
        "7"
    } else if d == 8 {
        "8"
    } else {
        "9"
    };
    assert(r@ =~= seq![digit_char(d as int)]);
    r
}

/// Decimal notation of `n`, `-` first when negative.
fn decimal_string(n: i64) -> (r: String)
    ensures
        r@ == decimal(n as int),
{
    let m0: u64 = if n < 0 {
        (0i128 - (n as i128)) as u64
    } else {
        n as u64
    };
    let mut ds: Vec<u64> = Vec::new();
    let mut m = m0;
    while m >= 10
        invariant
            digits(m0 as nat) == digits(m as nat) + ds@.map_values(|d: u64| digit_char(d as int)),
            forall|i: int| 0 <= i < ds@.len() ==> #[trigger] ds@[i] < 10,
        decreases m,
    {
        let ghost old_ds = ds@;
        let d = m % 10;
        ds.insert(0, d);
        assert(ds@.map_values(|d: u64| digit_char(d as int)) =~= seq![digit_char(d as int)]
            + old_ds.map_values(|d: u64| digit_char(d as int)));
        m = m / 10;
    }
    let ghost old_ds = ds@;
    ds.insert(0, m);
    assert(ds@.map_values(|d: u64| digit_char(d as int)) =~= seq![digit_char(m as int)]
        + old_ds.map_values(|d: u64| digit_char(d as int)));
    let ghost body = ds@.map_values(|d: u64| digit_char(d as int));
    assert(body == digits(m0 as nat));
    let mut text = String::new();
    if n < 0 {
        text.append("-");
    }
    proof {
        reveal_strlit("-");
    }
    let ghost head = text@;
    let mut k: usize = 0;
    assert(body.take(0) =~= Seq::<char>::empty());
    assert(head + body.take(0) =~= head);
    while k < ds.len()
        invariant
            k <= ds@.len(),
            body == ds@.map_values(|d: u64| digit_char(d as int)),
            forall|i: int| 0 <= i < ds@.len() ==> #[trigger] ds@[i] < 10,
            text@ == head + body.take(k as int),
        decreases ds@.len() - k,
    {
        text.append(digit_str(ds[k]));
        assert(head + body.take(k + 1) =~= head + body.take(k as int) + seq![body[k as int]]);
        k = k + 1;
    }
    assert(body.take(body.len() as int) =~= body);
    assert(text@ =~= decimal(n as int));
    text
}

/// Relies on chrono's `DateTime::parse_from_rfc3339`, read back with `timestamp`.
#[verifier::external_body]
fn parse_rfc3339_seconds(text: &str) -> (r: Option<i64>)
    ensures
        r == rfc3339_seconds(text@),
{
    chrono::DateTime::parse_from_rfc3339(text).ok().map(|d| d.timestamp())
}

/// Relies on std's `SystemTime::elapsed` on `UNIX_EPOCH`: whether the clock reads before
/// the epoch, and the whole seconds between the two; any value may come back. It does
/// not panic: a clock before 1970 comes back as an error holding the distance.
#[verifier::external_body]
fn clock_from_epoch() -> (r: (bool, u64)) {
    match std::time::UNIX_EPOCH.elapsed() {
        Ok(d) => (false, d.as_secs()),
        Err(e) => (true, e.duration().as_secs()),
    }
}

/// The current time in whole seconds since the epoch, negative before it, clamped to
/// the range of `i64`.
fn now_seconds() -> (r: i64) {
    let (before, secs) = clock_from_epoch();
    if before {
        if secs > i64::MAX as u64 {
            i64::MIN
        } else {
            -(secs as i64)
        }
    } else if secs > i64::MAX as u64 {
        i64::MAX
    } else {
        secs as i64
    }
}

pub open spec fn digit_char(d: int) -> char {
    seq!['0', '1', '2', '3', '4', '5', '6', '7', '8', '9', 'a', 'b', 'c', 'd', 'e', 'f'][d]
}

/// Lowercase hexadecimal, two digits per byte.
pub open spec fn hex_lower(bytes: Seq<u8>) -> Seq<char>
    decreases bytes.len(),
{
    if bytes.len() == 0 {
        Seq::empty()
    } else {
        hex_lower(bytes.drop_last()) + seq![
            digit_char(bytes.last() as int / 16),
            digit_char(bytes.last() as int % 16),
        ]
    }
}

pub open spec fn digits(n: nat) -> Seq<char>
    decreases n,
{
    if n < 10 {
        seq![digit_char(n as int)]
    } else {
        digits(n / 10) + seq![digit_char((n % 10) as int)]
    }
}

/// Decimal notation of an integer.
pub open spec fn decimal(n: int) -> Seq<char> {
    if n < 0 {
        seq!['-'] + digits((-n) as nat)
    } else {
        digits(n as nat)
    }
}

pub open spec fn ends_with(s: Seq<char>, suffix: Seq<char>) -> bool {
    suffix.len() <= s.len() && s.skip(s.len() - suffix.len()) == suffix
}

/// Common settings that are not secrets: a few names, and keys of URLs and paths.
pub open spec fn excluded_by_pattern(key: Seq<char>) -> bool {
    key == "NODE_ENV"@ || key == "PORT"@ || key == "HOST"@ || key == "ENVIRONMENT"@ || key
        == "DEBUG"@ || key == "LOG_LEVEL"@ || ends_with(key, "_URL"@) || ends_with(key, "_PATH"@)
}

pub open spec fn names_key(names: Seq<String>, key: Seq<char>) -> bool {
    exists|i: int| 0 <= i < names.len() && names[i]@ == key
}

/// Named keys only when a list is given; otherwise every key neither excluded nor a common setting.
pub open spec fn rotates(key: Seq<char>, specific: Option<Vec<String>>, exclude: Seq<String>) -> bool {
    match specific {
        Some(v) => names_key(v@, key),
        None => !names_key(exclude, key) && !excluded_by_pattern(key),
    }
}

/// The text whose digest becomes the new value.
pub open spec fn secret_input(key: Seq<char>, old_value: Seq<char>, timestamp: i64) -> Seq<char> {
    key + ":"@ + old_value + ":"@ + decimal(timestamp as int)
}

pub open spec fn secret_value(key: Seq<char>, old_value: Seq<char>, timestamp: i64) -> Seq<char> {
    hex_lower(sha256_of(encode_utf8(secret_input(key, old_value, timestamp))))
}

pub open spec fn count_rotated(
    vars: Seq<EnvVariable>,
    specific: Option<Vec<String>>,
    exclude: Seq<String>,
) -> nat
    decreases vars.len(),
{
    if vars.len() == 0 {
        0
    } else {
        count_rotated(vars.drop_last(), specific, exclude) + if rotates(
            vars.last().key@,
            specific,
            exclude,
        ) {
            1nat
        } else {
            0nat
        }
    }
}

fn ends_with_str(s: &Vec<char>, suffix: &str) -> (r: bool)
    ensures
        r == ends_with(s@, suffix@),
{
    let t = chars_of(suffix);
    if t.len() > s.len() {
        return false;
    }
    let off = s.len() - t.len();
    let mut i: usize = 0;
    while i < t.len()
        invariant
            i <= t@.len(),
            off + t@.len() == s@.len(),
            s@.len() == s.len(),
            t@ == suffix@,
            forall|j: int| 0 <= j < i ==> s@[off + j] == t@[j],
        decreases t@.len() - i,
    {
        if s[off + i] != t[i] {
            assert(s@.skip(off as int)[i as int] != t@[i as int]);
            return false;
        }
        i = i + 1;
    }
    assert(s@.skip(off as int) =~= t@);
    true
}

/// Whether a key names a common setting that is left alone.
pub fn is_excluded_by_pattern(key: &str) -> (r: bool)
    ensures
        r == excluded_by_pattern(key@),
{
    let k = String::from_str(key);
    if k == String::from_str("NODE_ENV") || k == String::from_str("PORT") || k
        == String::from_str("HOST") || k == String::from_str("ENVIRONMENT") || k
        == String::from_str("DEBUG") || k == String::from_str("LOG_LEVEL") {
        return true;
    }
    let cs = chars_of(key);
    ends_with_str(&cs, "_URL") || ends_with_str(&cs, "_PATH")
}

fn contains_name(names: &Vec<String>, key: &String) -> (r: bool)
    ensures
        r == names_key(names@, key@),
{
    let mut i: usize = 0;
    while i < names.len()
        invariant
            i <= names@.len(),
            forall|j: int| 0 <= j < i ==> names@[j]@ != key@,
        decreases names@.len() - i,
    {
        if names[i] == *key {
            return true;
        }
        i = i + 1;
    }
    false
}

/// Whether a variable is rotated.
pub fn should_rotate(key: &String, specific: &Option<Vec<String>>, exclude: &Vec<String>) -> (r:
    bool)
    ensures
        r == rotates(key@, *specific, exclude@),
{
    match specific {
        Some(v) => contains_name(v, key),
        None => !contains_name(exclude, key) && !is_excluded_by_pattern(key.as_str()),
    }
}

/// `interval_days` have passed from `last` to `now`, both in seconds.
pub open spec fn due(interval_days: u32, last: i64, now: i64) -> bool {
    now - last >= interval_days * 86400
}

/// Whether `interval_days` have passed from `last` to `now`.
pub fn rotation_due(interval_days: u32, last: i64, now: i64) -> (r: bool)
    ensures
        r == due(interval_days, last, now),
{
    (now as i128) - (last as i128) >= (interval_days as i128) * 86400
}

/// Whether a rotation is due at `now`: it is enabled and the interval has passed since
/// the last one; a missing or unreadable last time counts as due.
pub fn needs_rotation_at(rotation: &RotationConfig, now: i64) -> (r: bool)
    ensures
        r == rotation_due_spec(rotation, now),
{
    if !rotation.enabled {
        return false;
    }
    match &rotation.last_rotation {
        Some(last) => match parse_rfc3339_seconds(last.as_str()) {
            Some(t) => rotation_due(rotation.interval_days, t, now),
            None => true,
        },
        None => true,
    }
}

/// Whether a rotation is due now, by the system clock.
pub fn needs_rotation(rotation: &RotationConfig) -> (r: bool)
    ensures
        exists|now: i64| r == #[trigger] rotation_due_spec(rotation, now),
{
    let now = now_seconds();
    needs_rotation_at(rotation, now)
}

pub open spec fn rotation_due_spec(rotation: &RotationConfig, now: i64) -> bool {
    rotation.enabled && match rotation.last_rotation {
        None => true,
        Some(l) => match rfc3339_seconds(l@) {
            None => true,
            Some(t) => due(rotation.interval_days, t, now),
        },
    }
}

/// The new value of a secret: the lowercase hex SHA-256 of `key:old_value:timestamp`.
pub fn secret_for(old_value: &str, key: &str, timestamp: i64) -> (r: String)
    ensures
        r@ == secret_value(key@, old_value@, timestamp),
{
    let mut input = String::from_str(key);
    input.append(":");
    input.append(old_value);
    input.append(":");
    let t = decimal_string(timestamp);
    input.append(t.as_str());
    let digest = sha256(input.as_str().as_bytes());
    hex_encode(digest.as_slice())
}

/// A new value for a secret, from the current time.
pub fn generate_secret(old_value: &str, key: &str) -> (r: String)
    ensures
        exists|t: i64| r@ == secret_value(key@, old_value@, t),
{
    let now = now_seconds();
    secret_for(old_value, key, now)
}

/// The variables after a rotation, and how many were replaced.
pub struct RotationOutcome {
    pub variables: Vec<EnvVariable>,
    pub rotated: usize,
}

fn copy_variable(v: &EnvVariable) -> (r: EnvVariable)
    ensures
        r == *v,
{
    EnvVariable { key: v.key.clone(), value: v.value.clone(), updated_at: v.updated_at.clone() }
}

/// Replaces the value of each variable that rotates with `secret_for` at `timestamp`,
/// stamping it `updated_at`; the others are kept as they are, in place.
pub fn rotate_values(
    vars: &Vec<EnvVariable>,
    specific: &Option<Vec<String>>,
    exclude: &Vec<String>,
    timestamp: i64,
    updated_at: &str,
) -> (r: RotationOutcome)
    ensures
        r.variables@.len() == vars@.len(),
        r.rotated == count_rotated(vars@, *specific, exclude@),
        forall|i: int|
            0 <= i < vars@.len() ==> {
                let old_var = #[trigger] vars@[i];
                let new_var = r.variables@[i];
                if rotates(old_var.key@, *specific, exclude@) {
                    &&& new_var.key == old_var.key
                    &&& new_var.value@ == secret_value(old_var.key@, old_var.value@, timestamp)
                    &&& new_var.updated_at is Some
                    &&& new_var.updated_at->0@ == updated_at@
                } else {
                    new_var == old_var
                }
            },
{
    let mut out: Vec<EnvVariable> = Vec::new();
    let mut rotated: usize = 0;
    let mut i: usize = 0;
    while i < vars.len()
        invariant
            i <= vars@.len(),
            out@.len() == i,
            rotated == count_rotated(vars@.take(i as int), *specific, exclude@),
            rotated <= i,
            forall|j: int|
                0 <= j < i ==> {
                    let old_var = #[trigger] vars@[j];
                    let new_var = out@[j];
                    if rotates(old_var.key@, *specific, exclude@) {
                        &&& new_var.key == old_var.key
                        &&& new_var.value@ == secret_value(old_var.key@, old_var.value@, timestamp)
                        &&& new_var.updated_at is Some
                        &&& new_var.updated_at->0@ == updated_at@
                    } else {
                        new_var == old_var
                    }
                },
        decreases vars@.len() - i,
    {
        let v = &vars[i];
        assert(vars@.take(i + 1).drop_last() =~= vars@.take(i as int));
        if should_rotate(&v.key, specific, exclude) {
            let value = secret_for(v.value.as_str(), v.key.as_str(), timestamp);
            out.push(
                EnvVariable {
                    key: v.key.clone(),
                    value,
                    updated_at: Some(String::from_str(updated_at)),
                },
            );
            rotated = rotated + 1;
        } else {
            out.push(copy_variable(v));
        }
        i = i + 1;
    }
    assert(vars@.take(vars@.len() as int) =~= vars@);
    RotationOutcome { variables: out, rotated }
}

} // verus!
