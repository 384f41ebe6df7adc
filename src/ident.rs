use vstd::prelude::*;
use vstd::string::StrSliceExecFns;

use crate::error::ConfigError;

verus! {

/// A combined ISD and AS number: the upper 16 bits hold the isolation
/// domain, the lower 48 bits the AS number.
#[derive(Debug, Clone, Copy, PartialEq, Eq, Structural)]
pub struct IsdAs {
    pub raw: u64,
}

/// The 64-bit value that scion_proto reads from an ISD-AS text, if any.
pub uninterp spec fn isd_asn_of(s: Seq<char>) -> Option<u64>;

/// Relies on scion_proto's `IsdAsn::from_str`, which reads `<isd>-<asn>`
/// without panicking; the outcome depends on the text alone.
#[verifier::external_body]
fn isd_asn_from_str(s: &str) -> (r: Option<u64>)
    ensures
        r == isd_asn_of(s@),
{
    s.parse::<scion_proto::address::IsdAsn>().ok().map(|ia| ia.0)
}

/// What `parse_isd_as` returns for a text.
pub open spec fn isd_as_result(s: Seq<char>) -> Result<IsdAs, ConfigError> {
    match isd_asn_of(s) {
        Some(v) => Ok(IsdAs { raw: v }),
        None => Err(ConfigError::InvalidIdentifier),
    }
}

/// Parses a textual ISD-AS identifier such as `1-11` or `1-ff00:0:110`.
pub fn parse_isd_as(s: &str) -> (r: Result<IsdAs, ConfigError>)
    ensures
        r == isd_as_result(s@),
{
    match isd_asn_from_str(s) {
        Some(v) => Ok(IsdAs { raw: v }),
        None => Err(ConfigError::InvalidIdentifier),
    }
}

pub open spec fn is_digit(c: char) -> bool {
    '0' <= c && c <= '9'
}

pub open spec fn all_digits(s: Seq<char>) -> bool {
    forall|i: int| 0 <= i < s.len() ==> is_digit(#[trigger] s[i])
}

/// The number that a string of decimal digits denotes.
pub open spec fn decimal_value(s: Seq<char>) -> int
    decreases s.len(),
{
    if s.len() == 0 {
        0
    } else {
        decimal_value(s.drop_last()) * 10 + ((s.last() as u32) as int - 48)
    }
}

/// A text is an interface number when it is a non-empty run of decimal
/// digits denoting a value in `1..=65535`; zero is reserved.
pub open spec fn is_interface_text(s: Seq<char>) -> bool {
    &&& s.len() > 0
    &&& all_digits(s)
    &&& 0 < decimal_value(s) <= 65535
}

proof fn lemma_decimal_prefix_le(s: Seq<char>, n: int)
    requires
        all_digits(s),
        0 <= n <= s.len(),
    ensures
        0 <= decimal_value(s.subrange(0, n)) <= decimal_value(s),
    decreases s.len() - n,
{
    if n == s.len() {
        assert(s.subrange(0, n) =~= s);
        lemma_decimal_nonneg(s);
    } else {
        lemma_decimal_prefix_le(s, n + 1);
        let p = s.subrange(0, n + 1);
        assert(p.drop_last() =~= s.subrange(0, n));
        assert(all_digits(p));
        lemma_decimal_nonneg(s.subrange(0, n));
    }
}

proof fn lemma_decimal_nonneg(s: Seq<char>)
    requires
        all_digits(s),
    ensures
        decimal_value(s) >= 0,
    decreases s.len(),
{
    if s.len() > 0 {
        assert(all_digits(s.drop_last()));
        lemma_decimal_nonneg(s.drop_last());
    }
}

/// The character of a decimal digit.
pub open spec fn digit_char(d: nat) -> char {
    if d == 0 {
        '0'
    } else if d == 1 {
        '1'
    } else if d == 2 {
        '2'
    } else if d == 3 {
        '3'
    } else if d == 4 {
        '4'
    } else if d == 5 {
        '5'
    } else if d == 6 {
        '6'
    } else if d == 7 {
        '7'
    } else if d == 8 {
        '8'
    } else {
        '9'
    }
}

/// The usual decimal text of a number, without leading zeros.
pub open spec fn decimal_text(n: nat) -> Seq<char>
    decreases n,
{
    if n < 10 {
        seq![digit_char(n)]
    } else {
        decimal_text(n / 10).push(digit_char(n % 10))
    }
}

proof fn lemma_digit_char(d: nat)
    requires
        d < 10,
    ensures
        is_digit(digit_char(d)),
        (digit_char(d) as u32) as int - 48 == d,
{
}

proof fn lemma_decimal_text(n: nat)
    ensures
        decimal_text(n).len() > 0,
        all_digits(decimal_text(n)),
        decimal_value(decimal_text(n)) == n,
    decreases n,
{
    let s = decimal_text(n);
    lemma_digit_char(n % 10);
    if n < 10 {
        assert(s.drop_last() =~= Seq::<char>::empty());
        assert(decimal_value(s.drop_last()) == 0);
        assert(s.last() == digit_char(n));
        assert(n % 10 == n);
    } else {
        lemma_decimal_text(n / 10);
        assert(s.drop_last() =~= decimal_text(n / 10));
        assert(s.last() == digit_char(n % 10));
        assert(n == (n / 10) * 10 + n % 10);
    }
}

/// The text `0` is never an interface number; the decimal text of every
/// number in `1..=65535` is one, and reads back as that number.
pub proof fn lemma_interface_text_round_trip(n: nat)
    requires
        1 <= n <= 65535,
    ensures
        !is_interface_text(decimal_text(0)),
        is_interface_text(decimal_text(n)),
        decimal_value(decimal_text(n)) == n,
{
    lemma_decimal_text(0);
    lemma_decimal_text(n);
}

/// Parses a textual interface number; zero, anything out of `u16` range and
/// anything but decimal digits are refused.
pub fn parse_interface_id(s: &str) -> (r: Result<u16, ConfigError>)
    ensures
        is_interface_text(s@) ==> r == Ok::<u16, ConfigError>(decimal_value(s@) as u16),
        !is_interface_text(s@) ==> r == Err::<u16, ConfigError>(ConfigError::InvalidInterfaceId),
{
    let n = s.unicode_len();
    if n == 0 {
        return Err(ConfigError::InvalidInterfaceId);
    }
    let mut acc: u32 = 0;
    let mut i: usize = 0;
    while i < n
        invariant
            n == s@.len(),
            i <= n,
            all_digits(s@.subrange(0, i as int)),
            acc as int == decimal_value(s@.subrange(0, i as int)),
            acc <= 65535,
        decreases n - i,
    {
        let c = s.get_char(i);
        if !('0' <= c && c <= '9') {
            return Err(ConfigError::InvalidInterfaceId);
        }
        proof {
            let next = s@.subrange(0, i + 1);
            assert(next.drop_last() =~= s@.subrange(0, i as int));
            assert(next.last() == c);
        }
        acc = acc * 10 + (c as u32 - '0' as u32);
        i = i + 1;
        if acc > 65535 {
            proof {
                if all_digits(s@) {
                    lemma_decimal_prefix_le(s@, i as int);
                }
            }
            return Err(ConfigError::InvalidInterfaceId);
        }
    }
    proof {
        assert(s@.subrange(0, n as int) =~= s@);
    }
    if acc == 0 {
        return Err(ConfigError::InvalidInterfaceId);
    }
    Ok(acc as u16)
}

/// Accepts a numeric interface identifier; zero is reserved.
pub fn check_interface_id(v: u16) -> (r: Result<u16, ConfigError>)
    ensures
        v != 0 ==> r == Ok::<u16, ConfigError>(v),
        v == 0 ==> r == Err::<u16, ConfigError>(ConfigError::InvalidInterfaceId),
{
    if v == 0 {
        Err(ConfigError::InvalidInterfaceId)
    } else {
        Ok(v)
    }
}

/// Index of the last `ch` in `s`, or -1.
pub open spec fn last_index_of(s: Seq<char>, ch: char) -> int
    decreases s.len(),
{
    if s.len() == 0 {
        -1
    } else if s.last() == ch {
        s.len() - 1
    } else {
        last_index_of(s.drop_last(), ch)
    }
}

/// Where a link text splits: at the last `:` before its last `-`, so that
/// the second endpoint is `<isd>-<asn>` and the first may itself hold colons
/// (`1-ff00:0:110:1-ff00:0:111`).
pub open spec fn link_separator(s: Seq<char>) -> int {
    let h = last_index_of(s, '-');
    if h < 0 {
        -1
    } else {
        last_index_of(s.subrange(0, h), ':')
    }
}

/// What `parse_link_spec` returns for a text.
pub open spec fn link_result(s: Seq<char>) -> Result<(IsdAs, IsdAs), ConfigError> {
    let c = link_separator(s);
    if c < 0 {
        Err(ConfigError::InvalidLinkSpec)
    } else {
        match (isd_asn_of(s.subrange(0, c)), isd_asn_of(s.subrange(c + 1, s.len() as int))) {
            (Some(a), Some(b)) => Ok((IsdAs { raw: a }, IsdAs { raw: b })),
            _ => Err(ConfigError::InvalidLinkSpec),
        }
    }
}

/// Finds the last `ch` among the first `hi` characters of `s`.
fn find_last(s: &str, ch: char, hi: usize) -> (r: Option<usize>)
    requires
        hi <= s@.len(),
    ensures
        r is None <==> last_index_of(s@.subrange(0, hi as int), ch) < 0,
        r matches Some(k) ==> k < hi && k as int == last_index_of(s@.subrange(0, hi as int), ch),
{
    let mut i: usize = hi;
    while i > 0
        invariant
            i <= hi <= s@.len(),
            last_index_of(s@.subrange(0, hi as int), ch) == last_index_of(
                s@.subrange(0, i as int),
                ch,
            ),
        decreases i,
    {
        let c = s.get_char(i - 1);
        proof {
            let p = s@.subrange(0, i as int);
            assert(p.last() == c);
            assert(p.drop_last() =~= s@.subrange(0, i - 1));
        }
        if c == ch {
            return Some(i - 1);
        }
        i = i - 1;
    }
    None
}

/// Parses a link text `<isd-as>:<isd-as>` into its two endpoints.
pub fn parse_link_spec(s: &str) -> (r: Result<(IsdAs, IsdAs), ConfigError>)
    ensures
        r == link_result(s@),
{
    let n = s.unicode_len();
    proof {
        assert(s@.subrange(0, n as int) =~= s@);
    }
    let h = match find_last(s, '-', n) {
        Some(h) => h,
        None => return Err(ConfigError::InvalidLinkSpec),
    };
    let c = match find_last(s, ':', h) {
        Some(c) => c,
        None => return Err(ConfigError::InvalidLinkSpec),
    };
    let left = s.substring_char(0, c);
    let right = s.substring_char(c + 1, n);
    match (isd_asn_from_str(left), isd_asn_from_str(right)) {
        (Some(a), Some(b)) => Ok((IsdAs { raw: a }, IsdAs { raw: b })),
        _ => Err(ConfigError::InvalidLinkSpec),
    }
}

} // verus!
