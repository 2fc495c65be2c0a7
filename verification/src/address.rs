//! The address that every worker of a pool binds.

use crate::error::ConfigFault;
use vstd::prelude::*;
use vstd::string::StringSliceAdditionalSpecFns;

verus! {

/// An IPv4 host, by its four octets in network order.
#[derive(Clone, Copy, Debug, PartialEq, Eq, Structural)]
pub struct Host {
    pub a: u8,
    pub b: u8,
    pub c: u8,
    pub d: u8,
}

/// The `(host, port)` pair that all sockets of a pool are bound to.
#[derive(Clone, Copy, Debug, PartialEq, Eq, Structural)]
pub struct BindAddress {
    pub host: Host,
    pub port: u16,
}

/// The byte of the decimal digit `d`.
pub open spec fn digit_byte(d: u8) -> u8 {
    (48 + d) as u8
}

/// Whether `b` is the byte of a decimal digit.
pub open spec fn is_digit(b: u8) -> bool {
    48 <= b <= 57
}

/// The decimal text of an octet: one to three digits, without a leading zero.
pub open spec fn octet_text(v: u8) -> Seq<u8> {
    if v < 10 {
        seq![digit_byte(v)]
    } else if v < 100 {
        seq![digit_byte(v / 10), digit_byte(v % 10)]
    } else {
        seq![digit_byte(v / 100), digit_byte((v / 10) % 10), digit_byte(v % 10)]
    }
}

/// The dotted-decimal text of a host, such as `127.0.0.1`.
pub open spec fn host_text(h: Host) -> Seq<u8> {
    octet_text(h.a) + seq![46u8] + octet_text(h.b) + seq![46u8] + octet_text(h.c) + seq![46u8]
        + octet_text(h.d)
}

/// Whether a run of digits stops at position `i` of `text`: the text ends
/// there, or the byte there is no digit.
spec fn run_ends(text: Seq<u8>, i: int) -> bool {
    i == text.len() || (0 <= i < text.len() && !is_digit(text[i]))
}

/// Whether the digits that start at position `start` of `text` are the
/// decimal text of `v`, and no digit follows them.
spec fn reads(text: Seq<u8>, start: int, v: u8) -> bool {
    let t = octet_text(v);
    &&& 0 <= start
    &&& start + t.len() <= text.len()
    &&& forall|k: int| 0 <= k < t.len() ==> text[start + k] == #[trigger] t[k]
    &&& run_ends(text, start + t.len())
}

/// Whether the digits that start at position `start` of `text` spell `v`
/// with as many digits as its decimal text has, and no digit follows them.
spec fn digits_spell(text: Seq<u8>, start: int, v: u8) -> bool {
    if v < 10 {
        &&& start + 1 <= text.len()
        &&& is_digit(text[start])
        &&& v == text[start] - 48
        &&& run_ends(text, start + 1)
    } else if v < 100 {
        &&& start + 2 <= text.len()
        &&& is_digit(text[start])
        &&& is_digit(text[start + 1])
        &&& v == 10 * (text[start] - 48) + (text[start + 1] - 48)
        &&& run_ends(text, start + 2)
    } else {
        &&& start + 3 <= text.len()
        &&& is_digit(text[start])
        &&& is_digit(text[start + 1])
        &&& is_digit(text[start + 2])
        &&& v == 100 * (text[start] - 48) + 10 * (text[start + 1] - 48) + (text[start + 2] - 48)
        &&& run_ends(text, start + 3)
    }
}

/// The length of an octet's decimal text.
spec fn octet_width(v: u8) -> int {
    if v < 10 {
        1
    } else if v < 100 {
        2
    } else {
        3
    }
}

/// To read an octet's text is to find its digits spelled out.
proof fn lemma_reads_digits(text: Seq<u8>, start: int, v: u8)
    requires
        0 <= start,
    ensures
        octet_text(v).len() == octet_width(v),
        reads(text, start, v) <==> digits_spell(text, start, v),
{
    let t = octet_text(v);
    if reads(text, start, v) {
        assert(text[start + 0] == t[0]);
        if v >= 10 {
            assert(text[start + 1] == t[1]);
        }
        if v >= 100 {
            assert(text[start + 2] == t[2]);
        }
    }
    if digits_spell(text, start, v) {
        assert forall|k: int| 0 <= k < t.len() implies text[start + k] == #[trigger] t[k] by {}
    }
}

/// At one position at most one octet is read.
proof fn lemma_reads_unique(text: Seq<u8>, start: int, v: u8, w: u8)
    requires
        reads(text, start, v),
        reads(text, start, w),
    ensures
        v == w,
{
    lemma_reads_digits(text, start, v);
    lemma_reads_digits(text, start, w);
}

/// An octet's text stands where it was put, when no digit follows it.
proof fn lemma_reads_field(before: Seq<u8>, v: u8, after: Seq<u8>)
    requires
        after.len() == 0 || !is_digit(after[0]),
    ensures
        reads(before + octet_text(v) + after, before.len() as int, v),
{
    let t = octet_text(v);
    let text = before + t + after;
    assert forall|k: int| 0 <= k < t.len() implies text[before.len() + k] == #[trigger] t[k] by {}
    if after.len() > 0 {
        assert(text[(before.len() + t.len()) as int] == after[0]);
    }
}

/// Reads the octet whose decimal text starts at `start`.
fn read_octet(text: &[u8], start: usize) -> (r: Option<(u8, usize)>)
    requires
        start <= text.len(),
    ensures
        match r {
            Some((v, end)) => {
                &&& reads(text@, start as int, v)
                &&& end == start + octet_text(v).len()
                &&& forall|w: u8| reads(text@, start as int, w) ==> w == v
            },
            None => forall|w: u8| !reads(text@, start as int, w),
        },
{
    proof {
        assert forall|w: u8|
            octet_text(w).len() == octet_width(w) && (#[trigger] reads(text@, start as int, w)
                <==> digits_spell(text@, start as int, w)) by {
            lemma_reads_digits(text@, start as int, w);
        }
    }
    let n = text.len();
    if start >= n || text[start] < 48 || text[start] > 57 {
        return None;
    }
    let d0: u8 = text[start] - 48;
    if n - start < 2 || text[start + 1] < 48 || text[start + 1] > 57 {
        return Some((d0, start + 1));
    }
    let d1: u8 = text[start + 1] - 48;
    if d0 == 0 {
        return None;
    }
    if n - start < 3 || text[start + 2] < 48 || text[start + 2] > 57 {
        return Some((d0 * 10 + d1, start + 2));
    }
    let d2: u8 = text[start + 2] - 48;
    if n - start >= 4 && 48 <= text[start + 3] && text[start + 3] <= 57 {
        return None;
    }
    if d0 > 2 || (d0 == 2 && (d1 > 5 || (d1 == 5 && d2 > 5))) {
        return None;
    }
    Some((d0 * 100 + d1 * 10 + d2, start + 3))
}

/// Where the octets and the dots of a host stand in its dotted-decimal text.
spec fn shaped(text: Seq<u8>, h: Host) -> bool {
    let first = octet_text(h.a).len() as int;
    let second = first + 1 + octet_text(h.b).len();
    let third = second + 1 + octet_text(h.c).len();
    &&& reads(text, 0, h.a)
    &&& first < text.len() && text[first] == 46
    &&& reads(text, first + 1, h.b)
    &&& second < text.len() && text[second] == 46
    &&& reads(text, second + 1, h.c)
    &&& third < text.len() && text[third] == 46
    &&& reads(text, third + 1, h.d)
    &&& text.len() == third + 1 + octet_text(h.d).len()
}

/// A text is the dotted-decimal text of a host exactly when it has that
/// host's shape.
proof fn lemma_host_text_shape(text: Seq<u8>, h: Host)
    ensures
        text == host_text(h) <==> shaped(text, h),
{
    let dot = seq![46u8];
    let a = octet_text(h.a);
    let b = octet_text(h.b);
    let c = octet_text(h.c);
    let d = octet_text(h.d);
    let whole = host_text(h);
    let none = Seq::<u8>::empty();
    lemma_reads_field(none, h.a, dot + b + dot + c + dot + d);
    assert(whole =~= none + a + (dot + b + dot + c + dot + d));
    lemma_reads_field(a + dot, h.b, dot + c + dot + d);
    assert(whole =~= (a + dot) + b + (dot + c + dot + d));
    lemma_reads_field(a + dot + b + dot, h.c, dot + d);
    assert(whole =~= (a + dot + b + dot) + c + (dot + d));
    lemma_reads_field(a + dot + b + dot + c + dot, h.d, none);
    assert(whole =~= (a + dot + b + dot + c + dot) + d + none);
    if shaped(text, h) {
        let first = a.len() as int;
        let second = first + 1 + b.len();
        let third = second + 1 + c.len();
        assert forall|i: int| 0 <= i < text.len() implies text[i] == whole[i] by {
            if i < first {
                assert(text[0 + i] == a[i]);
            } else if i == first {
            } else if i < second {
                assert(text[first + 1 + (i - first - 1)] == b[i - first - 1]);
            } else if i == second {
            } else if i < third {
                assert(text[second + 1 + (i - second - 1)] == c[i - second - 1]);
            } else if i == third {
            } else {
                assert(text[third + 1 + (i - third - 1)] == d[i - third - 1]);
            }
        }
        assert(text =~= whole);
    }
}

/// Two hosts with the same dotted-decimal text are the same host.
pub proof fn lemma_host_text_injective(g: Host, h: Host)
    requires
        host_text(g) == host_text(h),
    ensures
        g == h,
{
    let text = host_text(g);
    lemma_host_text_shape(text, g);
    lemma_host_text_shape(text, h);
    lemma_reads_unique(text, 0, g.a, h.a);
    let first = octet_text(g.a).len() as int;
    lemma_reads_unique(text, first + 1, g.b, h.b);
    let second = first + 1 + octet_text(g.b).len();
    lemma_reads_unique(text, second + 1, g.c, h.c);
    let third = second + 1 + octet_text(g.c).len();
    lemma_reads_unique(text, third + 1, g.d, h.d);
}

/// Reads a host from its dotted-decimal text: four octets, each written
/// in decimal without a leading zero, with a dot between two neighbours.
pub fn parse_host(text: &[u8]) -> (r: Option<Host>)
    ensures
        match r {
            Some(h) => text@ == host_text(h),
            None => forall|h: Host| text@ != host_text(h),
        },
{
    proof {
        assert forall|h: Host| text@ == host_text(h) <==> shaped(text@, h) by {
            lemma_host_text_shape(text@, h);
        }
    }
    let n = text.len();
    let (a, first) = match read_octet(text, 0) {
        Some(found) => found,
        None => { return None; },
    };
    if first >= n || text[first] != 46 {
        return None;
    }
    let (b, second) = match read_octet(text, first + 1) {
        Some(found) => found,
        None => { return None; },
    };
    if second >= n || text[second] != 46 {
        return None;
    }
    let (c, third) = match read_octet(text, second + 1) {
        Some(found) => found,
        None => { return None; },
    };
    if third >= n || text[third] != 46 {
        return None;
    }
    let (d, end) = match read_octet(text, third + 1) {
        Some(found) => found,
        None => { return None; },
    };
    if end != n {
        return None;
    }
    Some(Host { a, b, c, d })
}

/// Whether `text` is the dotted-decimal text of some host.
pub open spec fn is_host_text(text: Seq<u8>) -> bool {
    exists|h: Host| text == host_text(h)
}

impl BindAddress {
    /// Whether every worker that binds this address gets the same pair: the
    /// port is one that the caller chose.
    pub open spec fn shareable(self) -> bool {
        self.port != 0
    }

    /// Checks a host and a port, and makes the address of them.
    ///
    /// The host must be the dotted-decimal text of an IPv4 address, and the
    /// port must not be zero. The host is looked at first.
    pub fn parse(host: &str, port: u16) -> (r: Result<BindAddress, ConfigFault>)
        ensures
            r is Ok <==> is_host_text(host.spec_bytes()) && port != 0,
            r matches Ok(address) ==> {
                &&& host.spec_bytes() == host_text(address.host)
                &&& address.port == port
                &&& address.shareable()
            },
            r matches Err(fault) ==> fault == (if is_host_text(host.spec_bytes()) {
                ConfigFault::Port
            } else {
                ConfigFault::Host
            }),
    {
        match parse_host(host.as_bytes()) {
            None => Err(ConfigFault::Host),
            Some(parsed) => {
                if port == 0 {
                    Err(ConfigFault::Port)
                } else {
                    Ok(BindAddress { host: parsed, port })
                }
            },
        }
    }
}

} // verus!
