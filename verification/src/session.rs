//! Session lifecycle: cluster identity, address list, connection state.
//!
//! A session starts `Disconnected`, moves to `Connecting` once its address
//! list validates, and from there to `Connected` when the transport comes
//! up, or to the terminal `Failed` when it does not.  Operations are only
//! accepted while `Connected`.  Address validation is purely syntactic —
//! a non-empty, comma-separated list of host:port pairs — and happens
//! before any transport work.

use vstd::prelude::*;
use vstd::string::StringExecFns;
use vstd::string::StrSliceExecFns;
use crate::errors::ClientError;
use crate::errors::FieldName;
use crate::numeric::all_dec_digits;
use crate::numeric::dec_str;
use crate::numeric::dec_val;
use crate::numeric::is_canonical_dec;
use crate::numeric::parse_u128;
use crate::numeric::render_u128;

verus! {

/// The connection lifecycle states of a session.
#[derive(Clone, Copy, Debug, PartialEq, Eq, Structural)]
pub enum SessionState {
    Disconnected,
    Connecting,
    Connected,
    Failed,
}

/// The index of the last `:` in `s`, or `-1` when there is none.
pub open spec fn last_colon(s: Seq<char>) -> int
    decreases s.len(),
{
    if s.len() == 0 {
        -1
    } else if s.last() == ':' {
        s.len() - 1
    } else {
        last_colon(s.drop_last())
    }
}

/// The last colon lies inside the string, on a `:`, with none after it.
pub proof fn lemma_last_colon_bounds(s: Seq<char>)
    ensures
        -1 <= last_colon(s) < s.len(),
        last_colon(s) >= 0 ==> s[last_colon(s)] == ':',
        forall|i: int| last_colon(s) < i < s.len() ==> s[i] != ':',
    decreases s.len(),
{
    if s.len() > 0 && s.last() != ':' {
        lemma_last_colon_bounds(s.drop_last());
        assert(forall|i: int| 0 <= i < s.len() - 1 ==> s.drop_last()[i] == s[i]);
    }
}

/// True when `s` is syntactically a host:port pair: a non-empty host, one
/// final colon, and an all-digit port of value at most 65535.
pub open spec fn valid_host_port(s: Seq<char>) -> bool {
    let k = last_colon(s);
    &&& k >= 1
    &&& k + 1 < s.len()
    &&& all_dec_digits(s.subrange(k + 1, s.len() as int))
    &&& dec_val(s.subrange(k + 1, s.len() as int)) <= 65535
}

/// The index of the first `,` in `s`, or `-1` when there is none.
pub open spec fn first_comma(s: Seq<char>) -> int
    decreases s.len(),
{
    if s.len() == 0 {
        -1
    } else if s[0] == ',' {
        0
    } else if first_comma(s.drop_first()) == -1 {
        -1
    } else {
        first_comma(s.drop_first()) + 1
    }
}

/// The first comma lies inside the string, on a `,`, with none before it.
pub proof fn lemma_first_comma_bounds(s: Seq<char>)
    ensures
        -1 <= first_comma(s) < s.len(),
        first_comma(s) >= 0 ==> s[first_comma(s)] == ',',
        forall|i: int| 0 <= i < first_comma(s) ==> s[i] != ',',
        first_comma(s) == -1 ==> forall|i: int| 0 <= i < s.len() ==> s[i] != ',',
    decreases s.len(),
{
    if s.len() > 0 && s[0] != ',' {
        lemma_first_comma_bounds(s.drop_first());
        assert forall|i: int| 0 <= i < first_comma(s) implies s[i] != ',' by {
            if i >= 1 {
                assert(s.drop_first()[i - 1] == s[i]);
            }
        }
        if first_comma(s) == -1 {
            assert forall|i: int| 0 <= i < s.len() implies s[i] != ',' by {
                if i >= 1 {
                    assert(s.drop_first()[i - 1] == s[i]);
                }
            }
        }
    }
}

/// True when `s` is a non-empty comma-separated list of host:port pairs.
pub open spec fn valid_addr_list(s: Seq<char>) -> bool
    decreases s.len(),
    via valid_addr_list_decreases
{
    let k = first_comma(s);
    if k == -1 {
        valid_host_port(s)
    } else {
        &&& valid_host_port(s.subrange(0, k))
        &&& valid_addr_list(s.subrange(k + 1, s.len() as int))
    }
}

#[via_fn]
proof fn valid_addr_list_decreases(s: Seq<char>) {
    lemma_first_comma_bounds(s);
}

/// A scan that finds a comma at `m` with none before it pins `first_comma`.
pub proof fn lemma_first_comma_of_scan(s: Seq<char>, m: int)
    requires
        0 <= m <= s.len(),
        forall|i: int| 0 <= i < m ==> s[i] != ',',
        m < s.len() ==> s[m] == ',',
    ensures
        first_comma(s) == if m == s.len() {
            -1
        } else {
            m
        },
    decreases m,
{
    if s.len() == 0 {
    } else if m == 0 {
    } else {
        lemma_first_comma_of_scan(s.drop_first(), m - 1);
    }
}

/// A scan that finds a colon at `k` with none after it pins `last_colon`.
pub proof fn lemma_last_colon_of_scan(s: Seq<char>, k: int)
    requires
        -1 <= k < s.len(),
        forall|i: int| k < i < s.len() ==> s[i] != ':',
        k >= 0 ==> s[k] == ':',
    ensures
        last_colon(s) == k,
    decreases s.len(),
{
    if s.len() > 0 {
        if k == s.len() - 1 {
        } else {
            lemma_last_colon_of_scan(s.drop_last(), k);
        }
    }
}

/// Checks whether `s` is syntactically a host:port pair.
pub fn check_host_port(s: &str) -> (r: bool)
    ensures
        r == valid_host_port(s@),
{
    let n = s.unicode_len();
    // Scan for the last colon.
    let mut i: usize = 0;
    let mut colon: usize = n;  // `n` stands for "none found"
    while i < n
        invariant
            i <= n,
            n == s@.len(),
            colon == n || (colon < i && s@[colon as int] == ':'),
            forall|j: int| (if colon == n { 0 } else { colon + 1 }) <= j < i ==> s@[j] != ':',
        decreases n - i,
    {
        let c = s.get_char(i);
        if c == ':' {
            colon = i;
        }
        i = i + 1;
    }
    proof {
        if colon == n {
            lemma_last_colon_of_scan(s@, -1);
        } else {
            lemma_last_colon_of_scan(s@, colon as int);
        }
    }
    if colon == n || colon < 1 || colon + 1 >= n {
        return false;
    }
    let port = s.substring_char(colon + 1, n);
    match parse_u128(port) {
        Some(v) => v <= 65535,
        None => {
            // Either a non-digit port, or a value past 128 bits, which is
            // in particular past the greatest port number.
            proof {
                if all_dec_digits(port@) && port@.len() >= 1 && dec_val(port@) <= 65535 {
                    assert(dec_val(port@) <= u128::MAX);
                }
            }
            false
        },
    }
}

/// Checks whether `s` is a non-empty comma-separated list of host:port
/// pairs.
pub fn check_addr_list(s: &str) -> (r: bool)
    ensures
        r == valid_addr_list(s@),
{
    let n = s.unicode_len();
    proof {
        assert(s@.subrange(0, n as int) =~= s@);
    }
    let mut start: usize = 0;
    loop
        invariant
            start <= n,
            n == s@.len(),
            valid_addr_list(s@) == valid_addr_list(s@.subrange(start as int, n as int)),
        decreases n - start,
    {
        // Scan for the next comma at or after `start`.
        let mut i: usize = start;
        while i < n
            invariant
                start <= i <= n,
                n == s@.len(),
                forall|j: int| start <= j < i ==> s@[j] != ',',
            ensures
                start <= i <= n,
                n == s@.len(),
                forall|j: int| start <= j < i ==> s@[j] != ',',
                i < n ==> s@[i as int] == ',',
            decreases n - i,
        {
            if s.get_char(i) == ',' {
                break ;
            }
            i = i + 1;
        }
        let ghost suffix = s@.subrange(start as int, n as int);
        proof {
            assert(i == n || s@[i as int] == ',');
            assert(forall|j: int| 0 <= j < i - start ==> suffix[j] != ',');
            lemma_first_comma_of_scan(suffix, i - start);
        }
        let segment = s.substring_char(start, i);
        proof {
            assert(segment@ =~= suffix.subrange(0, i - start));
            if i == n {
                assert(suffix.subrange(0, i - start) =~= suffix);
            }
        }
        if !check_host_port(segment) {
            return false;
        }
        if i == n {
            return true;
        }
        proof {
            assert(suffix.subrange(i - start + 1, suffix.len() as int) =~= s@.subrange(
                i + 1,
                n as int,
            ));
        }
        start = i + 1;
    }
}

/// A client session: cluster identity, address list, and connection state.
pub struct Session {
    pub cluster_id: u128,
    pub addresses: String,
    pub state: SessionState,
    pub transport_error: Option<u32>,
}

impl Session {
    /// Builds a session from a decimal cluster id and an address list
    /// string; fails only on a malformed cluster id.
    pub fn new(cluster_id: &str, addresses: &str) -> (r: Result<Session, ClientError>)
        ensures
            r is Ok <==> cluster_id@.len() >= 1 && all_dec_digits(cluster_id@) && dec_val(
                cluster_id@,
            ) <= u128::MAX,
            r matches Ok(s) ==> {
                &&& s.cluster_id == dec_val(cluster_id@)
                &&& s.addresses@ == addresses@
                &&& s.state is Disconnected
                &&& s.transport_error is None
            },
            r is Err ==> r == Err::<Session, ClientError>(
                ClientError::InvalidNumericField(FieldName::ClusterId),
            ),
    {
        match parse_u128(cluster_id) {
            Some(id) => Ok(
                Session {
                    cluster_id: id,
                    addresses: String::from_str(addresses),
                    state: SessionState::Disconnected,
                    transport_error: None,
                },
            ),
            None => Err(ClientError::InvalidNumericField(FieldName::ClusterId)),
        }
    }

    /// The cluster id, rendered as its canonical decimal string.
    pub fn get_cluster_id(&self) -> (r: String)
        ensures
            r@ == dec_str(self.cluster_id as nat),
            is_canonical_dec(r@),
            dec_val(r@) == self.cluster_id,
    {
        render_u128(self.cluster_id)
    }

    /// The address list string, as given at construction.
    pub fn get_addresses(&self) -> (r: String)
        ensures
            r@ == self.addresses@,
    {
        self.addresses.clone()
    }

    /// True when the session accepts batch operations.
    pub open spec fn accepts_operations(self) -> bool {
        self.state is Connected
    }

    /// True when the session is in the `Connected` state.
    pub fn is_connected(&self) -> (r: bool)
        ensures
            r == self.accepts_operations(),
    {
        match self.state {
            SessionState::Connected => true,
            _ => false,
        }
    }

    /// Starts connecting: validates the address list and moves to
    /// `Connecting`, or reports `InvalidAddress` before any transport work
    /// and stays `Disconnected`.
    pub fn connect(&mut self) -> (r: Result<(), ClientError>)
        requires
            old(self).state is Disconnected,
        ensures
            r is Ok <==> valid_addr_list(old(self).addresses@),
            r is Ok ==> *final(self) == (Session { state: SessionState::Connecting, ..*old(self) }),
            r is Err ==> *final(self) == *old(self) && r == Err::<(), ClientError>(
                ClientError::InvalidAddress,
            ),
    {
        if check_addr_list(self.addresses.as_str()) {
            self.state = SessionState::Connecting;
            Ok(())
        } else {
            Err(ClientError::InvalidAddress)
        }
    }

    /// Records that the transport came up: `Connecting` becomes
    /// `Connected`, making the duplex channel available to the multiplexer.
    pub fn transport_established(&mut self)
        requires
            old(self).state is Connecting,
        ensures
            *final(self) == (Session { state: SessionState::Connected, ..*old(self) }),
    {
        self.state = SessionState::Connected;
    }

    /// Records that the transport failed while connecting: the session
    /// enters the terminal `Failed` state carrying the transport error; a
    /// new session must be constructed to retry.
    pub fn transport_failed(&mut self, error: u32)
        requires
            old(self).state is Connecting,
        ensures
            *final(self) == (Session {
                state: SessionState::Failed,
                transport_error: Some(error),
                ..*old(self)
            }),
    {
        self.state = SessionState::Failed;
        self.transport_error = Some(error);
    }

    /// Records that an established connection dropped: back to
    /// `Disconnected`.
    pub fn disconnect(&mut self)
        requires
            old(self).state is Connected,
        ensures
            *final(self) == (Session { state: SessionState::Disconnected, ..*old(self) }),
    {
        self.state = SessionState::Disconnected;
    }
}

} // verus!
