//! Whether a connection outlives a response.
//!
//! A client says in its request which version of HTTP it speaks and, in the
//! `Connection` header, which options it asks for. From these two the server
//! tells whether the connection is kept for another request.

use vstd::prelude::*;

verus! {

/// The version of HTTP that a request was sent in.
#[derive(Clone, Copy, Debug, PartialEq, Eq, Structural)]
pub enum HttpVersion {
    /// HTTP/1.0: a connection is closed after the response unless the client
    /// asks to keep it.
    Http10,
    /// HTTP/1.1: a connection is kept after the response unless the client
    /// asks to close it.
    Http11,
}

/// The options that a request's `Connection` header names.
#[derive(Clone, Copy, Debug, PartialEq, Eq, Structural)]
pub struct ConnectionOptions {
    /// Whether `close` is among them.
    pub close: bool,
    /// Whether `keep-alive` is among them.
    pub keep_alive: bool,
}

/// Whether a connection is kept alive after the response to a request of
/// this version with these options: never when the request asks to close,
/// else always in HTTP/1.1, and in HTTP/1.0 when the request asks to keep it.
pub open spec fn persists(version: HttpVersion, options: ConnectionOptions) -> bool {
    !options.close && (version is Http11 || options.keep_alive)
}

/// Whether a connection is kept alive after the response to a request of
/// this version with these options.
pub fn keeps_alive(version: HttpVersion, options: ConnectionOptions) -> (keep_alive: bool)
    ensures
        keep_alive == persists(version, options),
{
    if options.close {
        false
    } else {
        match version {
            HttpVersion::Http11 => true,
            HttpVersion::Http10 => options.keep_alive,
        }
    }
}

/// A request that asks to keep the connection, and not to close it, has its
/// connection kept in either version.
pub proof fn lemma_keep_alive_header_persists(version: HttpVersion, options: ConnectionOptions)
    requires
        options.keep_alive,
        !options.close,
    ensures
        persists(version, options),
{
}

/// The bytes of `close`.
pub open spec fn close_option() -> Seq<u8> {
    seq![99u8, 108, 111, 115, 101]
}

/// The bytes of `keep-alive`.
pub open spec fn keep_alive_option() -> Seq<u8> {
    seq![107u8, 101, 101, 112, 45, 97, 108, 105, 118, 101]
}

/// Whether `b` is a space or a tab.
pub open spec fn is_blank(b: u8) -> bool {
    b == 32 || b == 9
}

/// The byte `b`, as a small letter if it is a capital one.
pub open spec fn lowered(b: u8) -> u8 {
    if 65 <= b <= 90 {
        (b + 32) as u8
    } else {
        b
    }
}

/// Whether the bytes of `value` from `from` up to `to` are one element of the
/// comma-separated list: they hold no comma, and a comma or an end of the
/// value stands on either side.
pub open spec fn is_element(value: Seq<u8>, from: int, to: int) -> bool {
    &&& 0 <= from <= to <= value.len()
    &&& from == 0 || value[from - 1] == 44
    &&& to == value.len() || value[to] == 44
    &&& forall|i: int| from <= i < to ==> value[i] != 44
}

/// Whether the bytes of `value` from `from` up to `to` are blanks up to
/// `lead`, then `option` in letters of either case, then blanks again.
pub open spec fn spells_at(value: Seq<u8>, from: int, to: int, option: Seq<u8>, lead: int) -> bool {
    &&& from <= lead
    &&& lead + option.len() <= to
    &&& forall|i: int| from <= i < lead ==> is_blank(value[i])
    &&& forall|k: int| 0 <= k < option.len() ==> lowered(value[lead + k]) == option[k]
    &&& forall|i: int| lead + option.len() <= i < to ==> is_blank(value[i])
}

/// Whether the bytes of `value` from `from` up to `to` are `option` in
/// letters of either case, with nothing but blanks before and after.
pub open spec fn spells(value: Seq<u8>, from: int, to: int, option: Seq<u8>) -> bool {
    exists|lead: int| spells_at(value, from, to, option, lead)
}

/// Whether the header value names the option: one of its elements spells it.
pub open spec fn names(value: Seq<u8>, option: Seq<u8>) -> bool {
    exists|from: int, to: int| #[trigger]
        is_element(value, from, to) && spells(value, from, to, option)
}

/// Whether `option` is written as an option is looked for: in small letters,
/// without a blank.
spec fn plain(option: Seq<u8>) -> bool {
    &&& option.len() >= 1
    &&& forall|k: int|
        0 <= k < option.len() ==> !is_blank(#[trigger] option[k]) && lowered(option[k])
            == option[k]
}

fn blank(b: u8) -> (r: bool)
    ensures
        r == is_blank(b),
{
    b == 32 || b == 9
}

fn lower(b: u8) -> (r: u8)
    ensures
        r == lowered(b),
{
    if 65 <= b && b <= 90 {
        b + 32
    } else {
        b
    }
}

/// Whether the bytes from `from` up to `to` spell the option.
fn element_spells(value: &[u8], from: usize, to: usize, option: &[u8]) -> (r: bool)
    requires
        from <= to <= value.len(),
        plain(option@),
    ensures
        r == spells(value@, from as int, to as int, option@),
{
    let mut lead = from;
    while lead < to && blank(value[lead])
        invariant
            from <= lead <= to <= value@.len(),
            forall|i: int| from <= i < lead ==> is_blank(value@[i]),
        decreases to - lead,
    {
        lead += 1;
    }
    let mut end = to;
    while end > lead && blank(value[end - 1])
        invariant
            lead <= end <= to <= value@.len(),
            forall|i: int| end <= i < to ==> is_blank(value@[i]),
        decreases end,
    {
        end -= 1;
    }
    proof {
        assert forall|l: int| spells_at(value@, from as int, to as int, option@, l) implies l
            == lead && l + option@.len() == end by {
            let last = option@.len() - 1;
            assert(lowered(value@[l + 0]) == option@[0]);
            assert(lowered(value@[l + last]) == option@[last]);
            assert(!is_blank(value@[l]));
            assert(!is_blank(value@[l + last]));
            if lead < l {
                assert(is_blank(value@[lead as int]));
            }
            if l + last + 1 < end {
                assert(is_blank(value@[end - 1]));
            }
        }
    }
    if end - lead != option.len() {
        return false;
    }
    let mut k: usize = 0;
    while k < option.len()
        invariant
            k <= option@.len(),
            lead + option@.len() == end,
            from <= lead,
            end <= to <= value@.len(),
            forall|i: int| from <= i < lead ==> is_blank(value@[i]),
            forall|i: int| end <= i < to ==> is_blank(value@[i]),
            forall|l: int|
                spells_at(value@, from as int, to as int, option@, l) ==> l == lead,
            forall|j: int| 0 <= j < k ==> lowered(value@[lead + j]) == option@[j],
        decreases option@.len() - k,
    {
        if lower(value[lead + k]) != option[k] {
            assert(!spells_at(value@, from as int, to as int, option@, lead as int));
            return false;
        }
        k += 1;
    }
    assert(spells_at(value@, from as int, to as int, option@, lead as int));
    true
}

/// Whether one of the value's elements spells the option.
fn value_names(value: &[u8], option: &[u8]) -> (r: bool)
    requires
        plain(option@),
    ensures
        r == names(value@, option@),
{
    let n = value.len();
    let mut from: usize = 0;
    loop
        invariant
            n == value@.len(),
            from <= n,
            from == 0 || value@[from - 1] == 44,
            plain(option@),
            forall|f: int, t: int|
                #[trigger] is_element(value@, f, t) && f < from ==> !spells(
                    value@,
                    f,
                    t,
                    option@,
                ),
        decreases n - from,
    {
        let mut to = from;
        while to < n && value[to] != 44
            invariant
                n == value@.len(),
                from <= to <= n,
                forall|i: int| from <= i < to ==> value@[i] != 44,
            decreases n - to,
        {
            to += 1;
        }
        assert(is_element(value@, from as int, to as int));
        if element_spells(value, from, to, option) {
            return true;
        }
        proof {
            assert forall|f: int, t: int| #[trigger]
                is_element(value@, f, t) && f <= to implies !spells(value@, f, t, option@) by {
                if f == from {
                    if t < to {
                        assert(value@[t] == 44);
                    } else if t > to {
                        assert(value@[to as int] != 44);
                    }
                } else if f > from {
                    assert(value@[f - 1] != 44);
                }
            }
        }
        if to == n {
            return false;
        }
        from = to + 1;
    }
}

impl ConnectionOptions {
    /// No option.
    pub fn none() -> (options: ConnectionOptions)
        ensures
            options == (ConnectionOptions { close: false, keep_alive: false }),
    {
        ConnectionOptions { close: false, keep_alive: false }
    }

    /// The options that the value of a `Connection` header names.
    ///
    /// The value is a list of elements with commas between them. An element
    /// names an option when it is the option's name in letters of either
    /// case, with nothing but spaces and tabs around it.
    pub fn named_in(value: &[u8]) -> (options: ConnectionOptions)
        ensures
            options.close == names(value@, close_option()),
            options.keep_alive == names(value@, keep_alive_option()),
    {
        let close: [u8; 5] = [99, 108, 111, 115, 101];
        let keep_alive: [u8; 10] = [107, 101, 101, 112, 45, 97, 108, 105, 118, 101];
        assert(close@ =~= close_option());
        assert(keep_alive@ =~= keep_alive_option());
        ConnectionOptions {
            close: value_names(value, close.as_slice()),
            keep_alive: value_names(value, keep_alive.as_slice()),
        }
    }

    /// These options and those of another header of the same request.
    pub fn and(self, more: ConnectionOptions) -> (options: ConnectionOptions)
        ensures
            options.close == (self.close || more.close),
            options.keep_alive == (self.keep_alive || more.keep_alive),
    {
        ConnectionOptions {
            close: self.close || more.close,
            keep_alive: self.keep_alive || more.keep_alive,
        }
    }
}

} // verus!
