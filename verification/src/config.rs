//! The service configuration as plain values, the interval format the
//! admin surface reads and writes, and the initialization gate with its
//! single-flight semantics.

use vstd::prelude::*;

use crate::errors::RegistryError;
use crate::hashes::push_char;
use crate::hashes::spec_hex_char;

verus! {

/// Paths of the bare index repo and the working clone, and the upstream
/// index URL.
pub struct Git {
    pub index_path: String,
    pub working_path: String,
    pub upstream_url: String,
}

/// Where artifacts are stored and which upstream serves missing ones.
pub struct Crates {
    pub storage_path: String,
    pub upstream_url: String,
}

/// Connection settings of the LDAP directory, when one is used.
pub struct Ldap {
    pub hostname: String,
    pub base_dn: String,
    pub domain: String,
    pub username: String,
    pub password: String,
}

impl PartialEq for Ldap {
    fn eq(&self, other: &Self) -> (r: bool) {
        crate::gitcmd::str_eq(self.hostname.as_str(), other.hostname.as_str())
            && crate::gitcmd::str_eq(self.base_dn.as_str(), other.base_dn.as_str())
            && crate::gitcmd::str_eq(self.domain.as_str(), other.domain.as_str())
            && crate::gitcmd::str_eq(self.username.as_str(), other.username.as_str())
            && crate::gitcmd::str_eq(self.password.as_str(), other.password.as_str())
    }
}

impl vstd::std_specs::cmp::PartialEqSpecImpl for Ldap {
    open spec fn obeys_eq_spec() -> bool {
        true
    }

    open spec fn eq_spec(&self, other: &Self) -> bool {
        &&& self.hostname@ == other.hostname@
        &&& self.base_dn@ == other.base_dn@
        &&& self.domain@ == other.domain@
        &&& self.username@ == other.username@
        &&& self.password@ == other.password@
    }
}

/// The service's own address, the sync cadence, and account policy.
pub struct Registry {
    pub can_create_account: bool,
    pub address: String,
    pub interval_secs: u64,
    pub ldap: Option<Ldap>,
}

/// Where the account and package rows are kept.
pub struct Database {
    pub url: String,
}

/// Everything the service is configured with.
pub struct Config {
    pub git: Git,
    pub crates: Crates,
    pub registry: Registry,
    pub database: Database,
}

/// The decimal digits of a number, most significant first.
pub open spec fn spec_decimal(n: u64) -> Seq<char>
    decreases n,
{
    if n < 10 {
        seq![spec_hex_char(n as u8)]
    } else {
        spec_decimal(n / 10).push(spec_hex_char((n % 10) as u8))
    }
}

/// Appends the decimal form of a number.
pub fn push_decimal(out: &mut String, n: u64)
    ensures
        final(out)@ == old(out)@ + spec_decimal(n),
    decreases n,
{
    if n >= 10 {
        push_decimal(out, n / 10);
    }
    push_char(out, crate::hashes::hex_char((n % 10) as u8));
    proof {
        assert(final(out)@ =~= old(out)@ + spec_decimal(n));
    }
}

/// The sync interval as the admin surface shows it: whole days, else whole
/// hours, else whole minutes, each rounded down.
pub open spec fn spec_format_interval(secs: u64) -> Seq<char> {
    if secs >= 86400 {
        spec_decimal((secs / 86400) as u64).push('d')
    } else if secs >= 3600 {
        spec_decimal((secs / 3600) as u64).push('h')
    } else {
        spec_decimal((secs / 60) as u64).push('m')
    }
}

pub fn format_interval(secs: u64) -> (r: String)
    ensures
        r@ == spec_format_interval(secs),
{
    let mut r = String::new();
    if secs >= 86400 {
        push_decimal(&mut r, secs / 86400);
        push_char(&mut r, 'd');
    } else if secs >= 3600 {
        push_decimal(&mut r, secs / 3600);
        push_char(&mut r, 'h');
    } else {
        push_decimal(&mut r, secs / 60);
        push_char(&mut r, 'm');
    }
    proof {
        assert(r@ =~= spec_format_interval(secs));
    }
    r
}

/// The value of decimal digit chars, most significant first.
pub open spec fn spec_char_digits_val(s: Seq<char>) -> int
    decreases s.len(),
{
    if s.len() == 0 {
        0
    } else {
        spec_char_digits_val(s.drop_last()) * 10 + (s.last() as u32 - 48)
    }
}

pub open spec fn spec_all_digit_chars(s: Seq<char>) -> bool {
    forall|j: int| 0 <= j < s.len() ==> 48 <= (#[trigger] s[j]) as u32 <= 57
}

/// The seconds per unit letter: minutes, hours or days.
pub open spec fn spec_interval_unit(c: char) -> Option<u64> {
    if c == 'm' {
        Some(60u64)
    } else if c == 'h' {
        Some(3600u64)
    } else if c == 'd' {
        Some(86400u64)
    } else {
        None
    }
}

/// What an interval setting string means: a nonempty run of digits, then
/// `m`, `h` or `d`; the seconds must fit the configured width.  Anything
/// else is a malformed setting.
pub open spec fn spec_parse_interval(s: Seq<char>) -> Option<u64> {
    if s.len() < 2 {
        None
    } else {
        let digits = s.drop_last();
        match spec_interval_unit(s.last()) {
            None => None,
            Some(unit) => if spec_all_digit_chars(digits) && spec_char_digits_val(digits) * unit
                <= u64::MAX {
                Some((spec_char_digits_val(digits) * unit) as u64)
            } else {
                None
            },
        }
    }
}

proof fn lemma_char_digits_nonneg(s: Seq<char>)
    requires
        spec_all_digit_chars(s),
    ensures
        spec_char_digits_val(s) >= 0,
    decreases s.len(),
{
    if s.len() > 0 {
        assert(spec_all_digit_chars(s.drop_last()));
        lemma_char_digits_nonneg(s.drop_last());
    }
}

proof fn lemma_char_digits_prefix(s: Seq<char>, i: int)
    requires
        spec_all_digit_chars(s),
        0 <= i <= s.len(),
    ensures
        spec_char_digits_val(s.take(i)) <= spec_char_digits_val(s),
    decreases s.len() - i,
{
    if i < s.len() {
        lemma_char_digits_prefix(s, i + 1);
        let t = s.take(i + 1);
        assert(spec_all_digit_chars(t));
        assert(t.drop_last() =~= s.take(i));
        lemma_char_digits_nonneg(s.take(i));
        assert(spec_char_digits_val(t) == spec_char_digits_val(s.take(i)) * 10 + (t.last() as u32
            - 48));
    } else {
        assert(s.take(i) =~= s);
    }
}

/// Reads an interval setting such as `30m`, `6h` or `1d` into seconds; a
/// missing unit letter, a non-numeric count, or a value out of range is a
/// malformed request.
pub fn parse_interval(s: &str) -> (r: Result<u64, RegistryError>)
    ensures
        match r {
            Ok(secs) => spec_parse_interval(s@) == Some(secs),
            Err(e) => {
                &&& spec_parse_interval(s@) is None
                &&& e == RegistryError::InvalidRequest
            },
        },
{
    let len = s.unicode_len();
    if len < 2 {
        return Err(RegistryError::InvalidRequest);
    }
    let unit: u64 = match s.get_char(len - 1) {
        'm' => 60,
        'h' => 3600,
        'd' => 86400,
        _ => {
            return Err(RegistryError::InvalidRequest);
        },
    };
    let ghost digits = s@.drop_last();
    let mut acc: u64 = 0;
    let mut i: usize = 0;
    proof {
        assert(digits.take(0) =~= Seq::<char>::empty());
        assert(s@.last() == s@[len - 1]);
    }
    while i < len - 1
        invariant
            len == s@.len(),
            2 <= len,
            digits == s@.drop_last(),
            i <= len - 1,
            unit == 60 || unit == 3600 || unit == 86400,
            spec_interval_unit(s@.last()) == Some(unit),
            forall|j: int| 0 <= j < i ==> 48 <= (#[trigger] s@[j]) as u32 <= 57,
            acc == spec_char_digits_val(digits.take(i as int)),
        decreases len - 1 - i,
    {
        let c = s.get_char(i);
        let n = c as u32;
        if n < 48 || n > 57 {
            proof {
                assert(digits[i as int] == s@[i as int]);
                assert(!spec_all_digit_chars(digits));
            }
            return Err(RegistryError::InvalidRequest);
        }
        proof {
            assert(digits[i as int] == s@[i as int]);
            assert(digits.take(i + 1).drop_last() =~= digits.take(i as int));
        }
        if acc > (u64::MAX - 9) / 10 {
            proof {
                lemma_overflow_means_none(s@, digits, i as int, acc, unit);
            }
            return Err(RegistryError::InvalidRequest);
        }
        acc = acc * 10 + ((n - 48) as u64);
        i = i + 1;
    }
    proof {
        assert(digits.take((len - 1) as int) =~= digits);
        assert(acc == spec_char_digits_val(digits));
    }
    if acc > u64::MAX / unit {
        proof {
            lemma_char_digits_nonneg(digits);
            assert(spec_char_digits_val(digits) * unit > u64::MAX) by (nonlinear_arith)
                requires
                    spec_char_digits_val(digits) == acc,
                    unit == 60 || unit == 3600 || unit == 86400,
                    acc > u64::MAX / unit,
            ;
        }
        return Err(RegistryError::InvalidRequest);
    }
    proof {
        assert(spec_char_digits_val(digits) * unit <= u64::MAX) by (nonlinear_arith)
            requires
                spec_char_digits_val(digits) == acc,
                unit == 60 || unit == 3600 || unit == 86400,
                acc <= u64::MAX / unit,
        ;
    }
    Ok(acc * unit)
}

/// Digits that have already outgrown the type make the whole setting
/// malformed: more digits only increase the value.
proof fn lemma_overflow_means_none(
    s: Seq<char>,
    digits: Seq<char>,
    i: int,
    acc: u64,
    unit: u64,
)
    requires
        s.len() >= 2,
        digits == s.drop_last(),
        0 <= i <= digits.len(),
        acc == spec_char_digits_val(digits.take(i)),
        acc > (u64::MAX - 9) / 10,
        unit == 60 || unit == 3600 || unit == 86400,
    ensures
        spec_all_digit_chars(digits) ==> spec_char_digits_val(digits) * unit > u64::MAX,
{
    if spec_all_digit_chars(digits) {
        lemma_char_digits_prefix(digits, i);
        assert(spec_char_digits_val(digits) * unit > u64::MAX) by (nonlinear_arith)
            requires
                spec_char_digits_val(digits) >= acc,
                acc > (u64::MAX - 9) / 10,
                unit >= 60,
        ;
    }
}

/// The two latches that guard initialization: `inited` stays up once set,
/// and `busy` admits one initialization at a time.
pub struct InitFlags {
    pub inited: bool,
    pub busy: bool,
}

/// What an initialization request is told to do.
#[derive(PartialEq, Eq, Structural, Debug)]
pub enum InitDecision {
    /// The system is already initialized: answer success at once.
    AlreadyDone,
    /// Another initialization is running: refuse this one.
    Busy,
    /// Proceed; the busy latch is now held.
    Proceed,
}

/// Starts an initialization: an initialized system answers at once, a
/// busy one refuses, and otherwise the busy latch is taken.
pub fn init_gate(flags: &mut InitFlags) -> (d: InitDecision)
    ensures
        old(flags).inited ==> d == InitDecision::AlreadyDone && *final(flags) == *old(flags),
        !old(flags).inited && old(flags).busy ==> d == InitDecision::Busy && *final(flags) == *old(
            flags,
        ),
        !old(flags).inited && !old(flags).busy ==> d == InitDecision::Proceed && final(flags).busy
            && !final(flags).inited,
{
    if flags.inited {
        InitDecision::AlreadyDone
    } else if flags.busy {
        InitDecision::Busy
    } else {
        flags.busy = true;
        InitDecision::Proceed
    }
}

/// Ends an initialization: the busy latch drops, and the inited latch
/// rises only on success.
pub fn init_finish(flags: &mut InitFlags, success: bool)
    ensures
        !final(flags).busy,
        final(flags).inited == (old(flags).inited || success),
{
    flags.busy = false;
    if success {
        flags.inited = true;
    }
}

} // verus!
