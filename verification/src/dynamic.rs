//! Built-in dynamic variables: identifiers, clocks and random values.
use vstd::prelude::*;
use crate::resolver::{DynamicVariableProvider, GeneratedVariable};
use crate::domain::{random_uuid_bits, random_uuid_shape, unix_timestamp, uuid_string, uuid_text};
use crate::text::{chars_of, decimal, hex_padded, push_decimal, push_hex, seq_eq};

verus! {

/// Fills 32 bytes with `getrandom::fill`; `None` when the system source of
/// randomness fails. Of the bytes nothing is claimed but their number.
#[verifier::external_body]
fn random_bytes() -> (r: Option<Vec<u8>>)
    ensures
        r matches Some(v) ==> v@.len() == 32,
{
    let mut bytes = [0_u8; 32];
    getrandom::fill(&mut bytes).ok()?;
    Some(bytes.to_vec())
}

/// The current time rendered by `chrono::DateTime::to_rfc3339`.
/// Nothing is claimed of the value: it is the time.
#[verifier::external_body]
fn rfc3339_now() -> String {
    chrono::Utc::now().to_rfc3339()
}

/// The calendar date `days` days after the given date, as `YYYY-MM-DD`,
/// as `chrono` computes it; `None` when the date does not exist or the sum
/// leaves `chrono`'s range.
pub uninterp spec fn civil_date_after(year: i32, month: u32, day: u32, days: i64) -> Option<Seq<char>>;

/// Makes a date with `NaiveDate::from_ymd_opt`, adds `days` days with
/// `checked_add_signed` and renders it with `to_string`; the result is named
/// `civil_date_after`. As `chrono` documents, a month from 1 to 12 with a
/// day from 1 to 28 is a date in any year within its range (about 262 000
/// years either side of year 0), and a sum within that range does not
/// overflow.
#[verifier::external_body]
fn date_after(year: i32, month: u32, day: u32, days: i64) -> (r: Option<String>)
    requires
        -1_000_000 <= days <= 1_000_000,
    ensures
        match r {
            Some(s) => civil_date_after(year, month, day, days) == Some(s@),
            None => civil_date_after(year, month, day, days) is None,
        },
        1 <= month <= 12 && 1 <= day <= 28 && -100_000 <= year <= 100_000 ==> r is Some,
{
    chrono::NaiveDate::from_ymd_opt(year, month, day)
        .and_then(|d| d.checked_add_signed(chrono::TimeDelta::days(days)))
        .map(|d| d.to_string())
}

/// Names that the built-in provider answers.
pub open spec fn builtin_name(name: Seq<char>) -> bool {
    name == "$guid"@ || name == "$uuid"@ || name == "$timestamp"@ || name == "$isoTimestamp"@
        || name == "$randomInt"@ || name == "$randomString"@ || name == "$randomEmail"@
        || name == "$randomIp"@ || name == "$randomDate"@ || name == "$randomBytes"@
}

/// The big-endian value of the first `n` bytes.
pub open spec fn be_value(b: Seq<u8>, n: nat) -> nat
    decreases n,
{
    if n == 0 {
        0
    } else {
        be_value(b, (n - 1) as nat) * 256 + b[n - 1] as nat
    }
}

/// The lowercase hexadecimal rendering of the bytes, two digits each.
pub open spec fn hex_bytes(b: Seq<u8>) -> Seq<char>
    decreases b.len(),
{
    if b.len() == 0 {
        Seq::empty()
    } else {
        hex_bytes(b.drop_last()) + hex_padded(b.last() as nat, 2)
    }
}

fn be_u64(b: &Vec<u8>) -> (r: u64)
    requires
        b@.len() >= 8,
    ensures
        r as nat == be_value(b@, 8),
{
    let mut v: u64 = 0;
    let mut i: usize = 0;
    while i < 8
        invariant
            i <= 8 <= b@.len(),
            v as nat == be_value(b@, i as nat),
            v as nat <= pow256(i as nat) - 1,
        decreases 8 - i,
    {
        proof {
            lemma_pow256_step(i as nat);
            assert(v as nat * 256 + b@[i as int] as nat <= (pow256(i as nat) - 1) * 256 + 255) by (nonlinear_arith)
                requires
                    v as nat <= pow256(i as nat) - 1,
                    b@[i as int] as nat <= 255,
            ;
            assert(pow256(i as nat) <= pow256(7));
        }
        v = v * 256 + b[i] as u64;
        i = i + 1;
    }
    v
}

spec fn pow256(n: nat) -> nat
    decreases n,
{
    if n == 0 {
        1
    } else {
        256 * pow256((n - 1) as nat)
    }
}

proof fn lemma_pow256_step(n: nat)
    requires
        n < 8,
    ensures
        pow256(n) <= pow256(7),
        pow256(7) == 72057594037927936,
        pow256(n + 1) == 256 * pow256(n),
    decreases 7 - n,
{
    reveal_with_fuel(pow256, 8);
    if n < 7 {
        lemma_pow256_step(n + 1);
    }
}

/// Appends a signed integer in decimal, with a leading `-` when negative.
fn push_signed(s: &mut String, n: i64)
    ensures
        final(s)@ == old(s)@ + (if n < 0 {
            seq!['-'] + decimal((-(n as int)) as nat)
        } else {
            decimal(n as nat)
        }),
{
    if n < 0 {
        s.push('-');
        let magnitude: u64 = if n == i64::MIN {
            9_223_372_036_854_775_808
        } else {
            (-n) as u64
        };
        push_decimal(s, magnitude);
    } else {
        push_decimal(s, n as u64);
    }
}

fn push_hex_bytes(s: &mut String, b: &Vec<u8>)
    ensures
        final(s)@ == old(s)@ + hex_bytes(b@),
{
    let mut i: usize = 0;
    while i < b.len()
        invariant
            i <= b.len(),
            s@ == old(s)@ + hex_bytes(b@.take(i as int)),
        decreases b.len() - i,
    {
        push_hex(s, b[i] as u64, 2);
        proof {
            assert(b@.take(i + 1).drop_last() =~= b@.take(i as int));
        }
        i = i + 1;
    }
    assert(b@.take(b.len() as int) =~= b@);
}

fn name_is(name: &[char], expected: &str) -> (r: bool)
    ensures
        r == (name@ == expected@),
{
    let e = chars_of(expected);
    seq_eq(name, &e)
}

/// A signed integer in decimal, with a leading `-` when negative.
pub open spec fn signed_decimal(n: i64) -> Seq<char> {
    if n < 0 {
        seq!['-'] + decimal((-(n as int)) as nat)
    } else {
        decimal(n as nat)
    }
}

/// Twelve hexadecimal digits from the top of 128 random bits.
pub open spec fn hex12(bits: u128) -> Seq<char> {
    hex_padded(((bits >> 80u32) as u64) as nat, 12)
}

/// A byte of an address, raised to 1 when it is 0.
pub open spec fn octet_at_least_one(b: u8) -> nat {
    if b > 1 {
        b as nat
    } else {
        1
    }
}

/// The value of a built-in dynamic variable, made from the bits of a UUID,
/// 32 random bytes and the current time (in seconds, and as RFC 3339 text);
/// `None` for any other name.
pub open spec fn builtin_text(name: Seq<char>, bits: u128, bytes: Seq<u8>, now_secs: i64, now_iso: Seq<char>) -> Option<Seq<char>> {
    if name == "$guid"@ || name == "$uuid"@ {
        Some(uuid_text(bits))
    } else if name == "$timestamp"@ {
        Some(signed_decimal(now_secs))
    } else if name == "$isoTimestamp"@ {
        Some(now_iso)
    } else if name == "$randomInt"@ {
        Some(decimal(be_value(bytes, 8) % 100_000))
    } else if name == "$randomString"@ {
        Some(hex12(bits))
    } else if name == "$randomEmail"@ {
        Some("user-"@ + hex12(bits) + "@example.test"@)
    } else if name == "$randomIp"@ {
        Some(
            decimal(octet_at_least_one(bytes[0])) + seq!['.'] + decimal(bytes[1] as nat) + seq!['.']
                + decimal(bytes[2] as nat) + seq!['.'] + decimal(octet_at_least_one(bytes[3])),
        )
    } else if name == "$randomDate"@ {
        civil_date_after(2000, 1, 1, (be_value(bytes, 8) % 18_263) as i64)
    } else if name == "$randomBytes"@ {
        Some(hex_bytes(bytes))
    } else {
        None
    }
}

/// The value of a built-in dynamic variable from given random bits, random
/// bytes and time; `None` for a name that is not built in.
pub fn builtin_value(name: &str, bits: u128, bytes: &Vec<u8>, now_secs: i64, now_iso: &str) -> (r: Option<String>)
    requires
        bytes@.len() == 32,
    ensures
        match r {
            Some(v) => builtin_text(name@, bits, bytes@, now_secs, now_iso@) == Some(v@),
            None => builtin_text(name@, bits, bytes@, now_secs, now_iso@) is None,
        },
        r is Some <==> builtin_name(name@),
{
    let n = chars_of(name);
    let random_u64 = be_u64(bytes);
    let mut value = String::new();
    if name_is(&n, "$guid") || name_is(&n, "$uuid") {
        value = uuid_string(bits);
    } else if name_is(&n, "$timestamp") {
        push_signed(&mut value, now_secs);
    } else if name_is(&n, "$isoTimestamp") {
        value = now_iso.to_owned();
    } else if name_is(&n, "$randomInt") {
        push_decimal(&mut value, random_u64 % 100_000);
    } else if name_is(&n, "$randomString") {
        push_hex(&mut value, (bits >> 80u32) as u64, 12);
    } else if name_is(&n, "$randomEmail") {
        value.push_str("user-");
        push_hex(&mut value, (bits >> 80u32) as u64, 12);
        value.push_str("@example.test");
    } else if name_is(&n, "$randomIp") {
        push_decimal(&mut value, if bytes[0] > 1 { bytes[0] as u64 } else { 1 });
        value.push('.');
        push_decimal(&mut value, bytes[1] as u64);
        value.push('.');
        push_decimal(&mut value, bytes[2] as u64);
        value.push('.');
        push_decimal(&mut value, if bytes[3] > 1 { bytes[3] as u64 } else { 1 });
    } else if name_is(&n, "$randomDate") {
        match date_after(2000, 1, 1, (random_u64 % 18_263) as i64) {
            Some(d) => {
                value = d;
            },
            None => {
                return None;
            },
        }
    } else if name_is(&n, "$randomBytes") {
        push_hex_bytes(&mut value, bytes);
    } else {
        return None;
    }
    Some(value)
}

/// Built-in dynamic variables: `$guid`/`$uuid`, `$timestamp`,
/// `$isoTimestamp`, `$randomInt`, `$randomString`, `$randomEmail`,
/// `$randomIp`, `$randomDate` and `$randomBytes`.
pub struct BuiltInDynamicVariables;

impl DynamicVariableProvider for BuiltInDynamicVariables {
    /// Draws a random UUID and 32 random bytes, reads the clock for the time
    /// variables, and returns the public value of a built-in variable
    /// (`builtin_value`). Any other name gives `None`, and so does a failure
    /// of the system's source of randomness.
    fn generate(&self, name: &str) -> (r: Option<GeneratedVariable>)
        ensures
            !builtin_name(name@) ==> r is None,
            r matches Some(g) ==> !g.is_secret && exists|bits: u128, bytes: Seq<u8>, secs: i64, iso: Seq<char>|
                random_uuid_shape(bits) && bytes.len() == 32 && #[trigger] builtin_text(
                    name@,
                    bits,
                    bytes,
                    secs,
                    iso,
                ) == Some(g.value@),
    {
        let n = chars_of(name);
        let bits = random_uuid_bits();
        let bytes = match random_bytes() {
            Some(b) => b,
            None => {
                return None;
            },
        };
        let secs = if name_is(&n, "$timestamp") {
            unix_timestamp()
        } else {
            0
        };
        let iso = if name_is(&n, "$isoTimestamp") {
            rfc3339_now()
        } else {
            String::new()
        };
        match builtin_value(name, bits, &bytes, secs, iso.as_str()) {
            Some(value) => {
                assert(builtin_text(name@, bits, bytes@, secs, iso@) == Some(value@));
                Some(GeneratedVariable { value, is_secret: false })
            },
            None => None,
        }
    }
}

} // verus!
