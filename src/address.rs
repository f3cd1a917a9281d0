//! Connection address strings: `tcp:`, `udpin:`, `udpout:` and `serial:`.
use vstd::prelude::*;
use vstd::string::StrSliceExecFns;

verus! {

/// Which transport an address asks for.
#[derive(Clone, Copy, Debug, PartialEq, Eq, Structural)]
pub enum TransportKind {
    /// Connect as a stream client to `host:port`.
    Tcp,
    /// Bind `host:port` and learn the peer from incoming datagrams.
    UdpIn,
    /// Bind an ephemeral port and send to the fixed `host:port`.
    UdpOut,
    /// Open the serial device of `device:baud`.
    Serial,
}

/// A parsed connection address: the transport and what follows its prefix.
#[derive(Clone, Debug, PartialEq, Eq)]
pub struct ConnectionAddress {
    pub kind: TransportKind,
    pub target: String,
}

/// Why an address or serial setting string was refused.
#[derive(Clone, Copy, Debug, PartialEq, Eq, Structural)]
pub enum AddressError {
    /// The prefix is none of `tcp:`, `udpin:`, `udpout:`, `serial:`.
    UnknownPrefix,
    /// A serial setting has no `:` before the baud rate.
    MissingBaudRate,
    /// A serial baud rate is not a decimal number, optionally after one `+`,
    /// that fits a `usize`.
    InvalidBaudRate,
}

pub open spec fn prefix_of(k: TransportKind) -> Seq<char> {
    match k {
        TransportKind::Tcp => "tcp:"@,
        TransportKind::UdpIn => "udpin:"@,
        TransportKind::UdpOut => "udpout:"@,
        TransportKind::Serial => "serial:"@,
    }
}

pub open spec fn starts_with(s: Seq<char>, p: Seq<char>) -> bool {
    p.len() <= s.len() && s.subrange(0, p.len() as int) == p
}

/// Whether `s` starts with `p`.
fn has_prefix(s: &str, p: &str) -> (r: bool)
    ensures
        r == starts_with(s@, p@),
{
    let n = s.unicode_len();
    let m = p.unicode_len();
    if m > n {
        return false;
    }
    let mut i: usize = 0;
    while i < m
        invariant
            m == p@.len() <= n == s@.len(),
            i <= m,
            s@.subrange(0, i as int) == p@.subrange(0, i as int),
        decreases m - i,
    {
        if s.get_char(i) != p.get_char(i) {
            assert(s@.subrange(0, m as int)[i as int] != p@[i as int]);
            return false;
        }
        i = i + 1;
        assert(s@.subrange(0, i as int) =~= p@.subrange(0, i as int));
    }
    assert(p@.subrange(0, m as int) =~= p@);
    true
}

/// The target that follows prefix `p` in `address`.
fn after_prefix(address: &str, p: &str) -> (r: String)
    requires
        starts_with(address@, p@),
    ensures
        r@ == address@.subrange(p@.len() as int, address@.len() as int),
{
    let n = address.unicode_len();
    let m = p.unicode_len();
    address.substring_char(m, n).to_owned()
}

/// Parses a connection address.
///
/// The address is one of `tcp:<host>:<port>`, `udpin:<host>:<port>`,
/// `udpout:<host>:<port>` or `serial:<device>:<baud>`; what follows the
/// prefix is handed on as the target. Any other prefix is refused, before
/// any resource is opened.
pub fn connect(address: &str) -> (r: Result<ConnectionAddress, AddressError>)
    ensures
        r is Ok <==> exists|k: TransportKind| starts_with(address@, prefix_of(k)),
        r matches Ok(c) ==> starts_with(address@, prefix_of(c.kind))
            && c.target@ == address@.subrange(prefix_of(c.kind).len() as int, address@.len() as int),
        r matches Err(e) ==> e == AddressError::UnknownPrefix,
{
    let kind = if has_prefix(address, "tcp:") {
        TransportKind::Tcp
    } else if has_prefix(address, "udpin:") {
        TransportKind::UdpIn
    } else if has_prefix(address, "udpout:") {
        TransportKind::UdpOut
    } else if has_prefix(address, "serial:") {
        TransportKind::Serial
    } else {
        assert forall|k: TransportKind| !starts_with(address@, prefix_of(k)) by {
            match k {
                TransportKind::Tcp => {},
                TransportKind::UdpIn => {},
                TransportKind::UdpOut => {},
                TransportKind::Serial => {},
            }
        }
        return Err(AddressError::UnknownPrefix);
    };
    let p = match kind {
        TransportKind::Tcp => "tcp:",
        TransportKind::UdpIn => "udpin:",
        TransportKind::UdpOut => "udpout:",
        TransportKind::Serial => "serial:",
    };
    assert(p@ == prefix_of(kind));
    assert(starts_with(address@, prefix_of(kind)));
    let target = after_prefix(address, p);
    Ok(ConnectionAddress { kind, target })
}

/// Number of characters before the first `:` of `s` (all of them if none).
pub open spec fn field_len(s: Seq<char>) -> nat
    decreases s.len(),
{
    if s.len() == 0 || s[0] == ':' {
        0
    } else {
        1 + field_len(s.drop_first())
    }
}

pub proof fn lemma_field_len(s: Seq<char>, k: int)
    requires
        0 <= k <= s.len(),
        forall|j: int| 0 <= j < k ==> #[trigger] s[j] != ':',
        k == s.len() || s[k] == ':',
    ensures
        field_len(s) == k,
    decreases k,
{
    if k > 0 {
        let t = s.drop_first();
        assert forall|j: int| 0 <= j < k - 1 implies #[trigger] t[j] != ':' by {
            assert(t[j] == s[j + 1]);
        }
        lemma_field_len(t, k - 1);
    }
}

/// Index of the first `:` of `s` at or after `from`, or its length.
pub(crate) fn field_end(s: &str, from: usize) -> (r: usize)
    requires
        from <= s@.len(),
    ensures
        r == from + field_len(s@.subrange(from as int, s@.len() as int)),
        r <= s@.len(),
{
    let n = s.unicode_len();
    let mut i: usize = from;
    while i < n && s.get_char(i) != ':'
        invariant
            from <= i <= n == s@.len(),
            forall|j: int| from <= j < i ==> #[trigger] s@[j] != ':',
        decreases n - i,
    {
        i = i + 1;
    }
    let ghost t = s@.subrange(from as int, n as int);
    assert forall|j: int| 0 <= j < i - from implies #[trigger] t[j] != ':' by {
        assert(t[j] == s@[j + from]);
    }
    proof {
        lemma_field_len(t, i - from);
    }
    i
}

pub open spec fn is_digit(c: char) -> bool {
    '0' <= c && c <= '9'
}

pub open spec fn digit_value(c: char) -> int {
    c as int - '0' as int
}

/// The value of a string of decimal digits.
pub open spec fn decimal_value(s: Seq<char>) -> int
    decreases s.len(),
{
    if s.len() == 0 {
        0
    } else {
        decimal_value(s.drop_last()) * 10 + digit_value(s.last())
    }
}

/// Whether `s` is a decimal number that fits a `usize`.
pub open spec fn is_usize_decimal(s: Seq<char>) -> bool {
    &&& s.len() > 0
    &&& forall|j: int| 0 <= j < s.len() ==> is_digit(#[trigger] s[j])
    &&& decimal_value(s) <= usize::MAX
}

proof fn lemma_decimal_value_nonneg(s: Seq<char>)
    requires
        forall|j: int| 0 <= j < s.len() ==> is_digit(#[trigger] s[j]),
    ensures
        decimal_value(s) >= 0,
    decreases s.len(),
{
    if s.len() > 0 {
        lemma_decimal_value_nonneg(s.drop_last());
    }
}

/// Parses `s[from..to]` as a decimal `usize`.
pub(crate) fn parse_decimal(s: &str, from: usize, to: usize) -> (r: Option<usize>)
    requires
        from <= to <= s@.len(),
    ensures
        r is Some <==> is_usize_decimal(s@.subrange(from as int, to as int)),
        r matches Some(v) ==> v == decimal_value(s@.subrange(from as int, to as int)),
{
    let ghost t = s@.subrange(from as int, to as int);
    if from == to {
        return None;
    }
    let mut value: usize = 0;
    let mut i: usize = from;
    while i < to
        invariant
            from <= i <= to <= s@.len(),
            t == s@.subrange(from as int, to as int),
            forall|j: int| from <= j < i ==> is_digit(#[trigger] s@[j]),
            value == decimal_value(s@.subrange(from as int, i as int)),
        decreases to - i,
    {
        let c = s.get_char(i);
        let ghost p = s@.subrange(from as int, i as int + 1);
        assert(p.drop_last() =~= s@.subrange(from as int, i as int));
        if !('0' <= c && c <= '9') {
            assert(!is_digit(t[i - from]));
            return None;
        }
        let d = (c as u32 - '0' as u32) as usize;
        assert forall|j: int| 0 <= j < p.len() implies is_digit(#[trigger] p[j]) by {
            assert(p[j] == s@[from + j]);
        }
        let next = match value.checked_mul(10) {
            Some(v) => v.checked_add(d),
            None => None,
        };
        match next {
            Some(v) => {
                value = v;
            },
            None => {
                proof {
                    lemma_decimal_value_nonneg(p);
                    assert(decimal_value(p) > usize::MAX);
                    assert forall|q: Seq<char>|
                        #![trigger decimal_value(q)]
                        q.len() >= p.len() && q.subrange(0, p.len() as int) == p
                            && (forall|j: int| 0 <= j < q.len() ==> is_digit(#[trigger] q[j]))
                        implies decimal_value(q) > usize::MAX by {
                        lemma_decimal_grows(p, q);
                    }
                    assert(t.subrange(0, p.len() as int) =~= p);
                }
                return None;
            },
        }
        i = i + 1;
    }
    assert(s@.subrange(from as int, i as int) =~= t);
    Some(value)
}

/// Appending digits never makes a decimal value smaller.
proof fn lemma_decimal_grows(p: Seq<char>, q: Seq<char>)
    requires
        q.len() >= p.len(),
        q.subrange(0, p.len() as int) == p,
        forall|j: int| 0 <= j < q.len() ==> is_digit(#[trigger] q[j]),
    ensures
        decimal_value(q) >= decimal_value(p),
    decreases q.len(),
{
    if q.len() > p.len() {
        let r = q.drop_last();
        assert(r.subrange(0, p.len() as int) =~= p);
        lemma_decimal_grows(p, r);
        lemma_decimal_value_nonneg(r);
    } else {
        assert(q =~= p);
    }
}

} // verus!
