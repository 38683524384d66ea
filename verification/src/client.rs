//! The application-facing client: value bags in, correlated results out.
//!
//! A client owns one session and one request multiplexer.  An operation
//! marshals its value bags into strict records, encodes them, and submits
//! the bytes, receiving a correlation id; the transport loop outside the
//! core sends the queued frames and feeds completions back; the caller
//! collects its response by correlation id and decodes it back to value
//! bags.  Operations are accepted only while the session is connected, and
//! validation failures touch neither the session nor the multiplexer.

use vstd::prelude::*;
use crate::codec::decode_accounts;
use crate::codec::decode_results;
use crate::codec::encode_accounts;
use crate::codec::encode_ids;
use crate::codec::encode_transfers;
use crate::codec::spec_decode_accounts;
use crate::codec::spec_decode_results;
use crate::codec::spec_encode_accounts;
use crate::codec::spec_encode_ids;
use crate::codec::spec_encode_transfers;
use crate::codec::spec_result_codes_known;
use crate::errors::ClientError;
use crate::errors::FieldName;
use crate::marshal::AccountBag;
use crate::marshal::TransferBag;
use crate::marshal::marshal_account;
use crate::marshal::marshal_transfer;
use crate::marshal::spec_account_bag_matches;
use crate::marshal::spec_marshal_account;
use crate::marshal::spec_marshal_transfer;
use crate::marshal::unmarshal_account;
use crate::numeric::all_dec_digits;
use crate::numeric::dec_str;
use crate::numeric::dec_val;
use crate::numeric::is_canonical_dec;
use crate::numeric::parse_u128;
use crate::mux::AwaitStatus;
use crate::mux::Multiplexer;
use crate::mux::SlotView;
use crate::mux::mux_wf;
use crate::mux::spec_can_submit;
use crate::mux::spec_connection_lost;
use crate::mux::spec_on_completion;
use crate::mux::spec_await_result;
use crate::mux::spec_submit;
use crate::mux::spec_submit_id;
use crate::records::Account;
use crate::records::CreateOutcome;
use crate::records::CreateResult;
use crate::records::OperationKind;
use crate::records::Transfer;
use crate::session::Session;
use crate::session::SessionState;

verus! {

/// True when every account bag of the batch marshals successfully.
pub open spec fn spec_accounts_all_valid(bags: Seq<AccountBag>) -> bool {
    forall|j: int| 0 <= j < bags.len() ==> spec_marshal_account(#[trigger] bags[j]) is Ok
}

/// The records a valid batch of account bags marshals to.
pub open spec fn spec_marshaled_accounts(bags: Seq<AccountBag>) -> Seq<Account> {
    Seq::new(bags.len(), |j: int| spec_marshal_account(bags[j])->Ok_0)
}

/// The least index whose account bag fails to marshal, or `-1`.
pub open spec fn spec_first_invalid_account(bags: Seq<AccountBag>) -> int
    decreases bags.len(),
{
    if bags.len() == 0 {
        -1
    } else if spec_marshal_account(bags.first()) is Err {
        0
    } else if spec_first_invalid_account(bags.drop_first()) == -1 {
        -1
    } else {
        spec_first_invalid_account(bags.drop_first()) + 1
    }
}

/// A scan that marshals a prefix and hits an error at `m` pins the least
/// invalid index.
pub proof fn lemma_first_invalid_account_of_scan(bags: Seq<AccountBag>, m: int)
    requires
        0 <= m <= bags.len(),
        forall|j: int| 0 <= j < m ==> spec_marshal_account(#[trigger] bags[j]) is Ok,
        m < bags.len() ==> spec_marshal_account(bags[m]) is Err,
    ensures
        spec_first_invalid_account(bags) == if m == bags.len() {
            -1
        } else {
            m
        },
    decreases m,
{
    if bags.len() == 0 {
    } else if m == 0 {
    } else {
        lemma_first_invalid_account_of_scan(bags.drop_first(), m - 1);
    }
}

/// True when every transfer bag of the batch marshals successfully.
pub open spec fn spec_transfers_all_valid(bags: Seq<TransferBag>) -> bool {
    forall|j: int| 0 <= j < bags.len() ==> spec_marshal_transfer(#[trigger] bags[j]) is Ok
}

/// The records a valid batch of transfer bags marshals to.
pub open spec fn spec_marshaled_transfers(bags: Seq<TransferBag>) -> Seq<Transfer> {
    Seq::new(bags.len(), |j: int| spec_marshal_transfer(bags[j])->Ok_0)
}

/// The least index whose transfer bag fails to marshal, or `-1`.
pub open spec fn spec_first_invalid_transfer(bags: Seq<TransferBag>) -> int
    decreases bags.len(),
{
    if bags.len() == 0 {
        -1
    } else if spec_marshal_transfer(bags.first()) is Err {
        0
    } else if spec_first_invalid_transfer(bags.drop_first()) == -1 {
        -1
    } else {
        spec_first_invalid_transfer(bags.drop_first()) + 1
    }
}

/// A scan that marshals a prefix and hits an error at `m` pins the least
/// invalid index.
pub proof fn lemma_first_invalid_transfer_of_scan(bags: Seq<TransferBag>, m: int)
    requires
        0 <= m <= bags.len(),
        forall|j: int| 0 <= j < m ==> spec_marshal_transfer(#[trigger] bags[j]) is Ok,
        m < bags.len() ==> spec_marshal_transfer(bags[m]) is Err,
    ensures
        spec_first_invalid_transfer(bags) == if m == bags.len() {
            -1
        } else {
            m
        },
    decreases m,
{
    if bags.len() == 0 {
    } else if m == 0 {
    } else {
        lemma_first_invalid_transfer_of_scan(bags.drop_first(), m - 1);
    }
}

/// True when a lookup id string is a decimal string of 128-bit value.
pub open spec fn spec_id_ok(s: String) -> bool {
    s@.len() >= 1 && all_dec_digits(s@) && dec_val(s@) <= u128::MAX
}

/// True when every id string of the batch parses.
pub open spec fn spec_ids_all_valid(ids: Seq<String>) -> bool {
    forall|j: int| 0 <= j < ids.len() ==> spec_id_ok(#[trigger] ids[j])
}

/// The parsed values of a valid batch of id strings, in order.
pub open spec fn spec_parsed_ids(ids: Seq<String>) -> Seq<u128> {
    Seq::new(ids.len(), |j: int| dec_val(ids[j]@) as u128)
}

/// Marshals a whole batch of account bags, or reports the first failing
/// bag's error.
pub fn marshal_accounts(bags: &Vec<AccountBag>) -> (r: Result<Vec<Account>, ClientError>)
    ensures
        r is Ok <==> spec_accounts_all_valid(bags@),
        r matches Ok(v) ==> v@ =~= spec_marshaled_accounts(bags@),
        r matches Err(e) ==> ({
            let k = spec_first_invalid_account(bags@);
            &&& 0 <= k < bags@.len()
            &&& Err::<Account, ClientError>(e) == spec_marshal_account(bags@[k])
        }),
{
    let mut out: Vec<Account> = Vec::new();
    let mut i: usize = 0;
    while i < bags.len()
        invariant
            i <= bags@.len(),
            out@.len() == i,
            forall|j: int| 0 <= j < i ==> spec_marshal_account(#[trigger] bags@[j]) is Ok,
            forall|j: int| 0 <= j < i ==> out@[j] == spec_marshal_account(bags@[j])->Ok_0,
        decreases bags@.len() - i,
    {
        match marshal_account(&bags[i]) {
            Ok(a) => {
                out.push(a);
            },
            Err(e) => {
                proof {
                    lemma_first_invalid_account_of_scan(bags@, i as int);
                }
                return Err(e);
            },
        }
        i = i + 1;
    }
    assert(out@ =~= spec_marshaled_accounts(bags@));
    Ok(out)
}

/// Marshals a whole batch of transfer bags, or reports the first failing
/// bag's error.
pub fn marshal_transfers(bags: &Vec<TransferBag>) -> (r: Result<Vec<Transfer>, ClientError>)
    ensures
        r is Ok <==> spec_transfers_all_valid(bags@),
        r matches Ok(v) ==> v@ =~= spec_marshaled_transfers(bags@),
        r matches Err(e) ==> ({
            let k = spec_first_invalid_transfer(bags@);
            &&& 0 <= k < bags@.len()
            &&& Err::<Transfer, ClientError>(e) == spec_marshal_transfer(bags@[k])
        }),
{
    let mut out: Vec<Transfer> = Vec::new();
    let mut i: usize = 0;
    while i < bags.len()
        invariant
            i <= bags@.len(),
            out@.len() == i,
            forall|j: int| 0 <= j < i ==> spec_marshal_transfer(#[trigger] bags@[j]) is Ok,
            forall|j: int| 0 <= j < i ==> out@[j] == spec_marshal_transfer(bags@[j])->Ok_0,
        decreases bags@.len() - i,
    {
        match marshal_transfer(&bags[i]) {
            Ok(t) => {
                out.push(t);
            },
            Err(e) => {
                proof {
                    lemma_first_invalid_transfer_of_scan(bags@, i as int);
                }
                return Err(e);
            },
        }
        i = i + 1;
    }
    assert(out@ =~= spec_marshaled_transfers(bags@));
    Ok(out)
}

/// Parses a whole batch of id strings, or reports the id field invalid.
pub fn parse_ids(ids: &Vec<String>) -> (r: Result<Vec<u128>, ClientError>)
    ensures
        r is Ok <==> spec_ids_all_valid(ids@),
        r matches Ok(v) ==> v@ =~= spec_parsed_ids(ids@),
        r is Err ==> r == Err::<Vec<u128>, ClientError>(
            ClientError::InvalidNumericField(FieldName::Id),
        ),
{
    let mut out: Vec<u128> = Vec::new();
    let mut i: usize = 0;
    while i < ids.len()
        invariant
            i <= ids@.len(),
            out@.len() == i,
            forall|j: int| 0 <= j < i ==> spec_id_ok(#[trigger] ids@[j]),
            forall|j: int| 0 <= j < i ==> out@[j] == dec_val(ids@[j]@) as u128,
        decreases ids@.len() - i,
    {
        match parse_u128(ids[i].as_str()) {
            Some(v) => {
                out.push(v);
            },
            None => {
                return Err(ClientError::InvalidNumericField(FieldName::Id));
            },
        }
        i = i + 1;
    }
    assert(out@ =~= spec_parsed_ids(ids@));
    Ok(out)
}

/// The outcome of batch item `i`: the first reported result for that
/// index, or success when the result payload omits the index.
pub open spec fn spec_outcome_at(results: Seq<CreateResult>, i: int) -> CreateOutcome
    decreases results.len(),
{
    if results.len() == 0 {
        CreateOutcome::Succeeded
    } else if results.first().index == i {
        results.first().outcome
    } else {
        spec_outcome_at(results.drop_first(), i)
    }
}

/// Expands a result payload into one outcome per batch item: an index
/// absent from the payload succeeded; in particular an empty payload means
/// every item of the batch succeeded.
pub fn batch_outcomes(results: &Vec<CreateResult>, batch_len: usize) -> (out: Vec<CreateOutcome>)
    ensures
        out@.len() == batch_len,
        forall|i: int| 0 <= i < batch_len ==> out@[i] == spec_outcome_at(results@, i),
        results@.len() == 0 ==> forall|i: int|
            0 <= i < batch_len ==> out@[i] == CreateOutcome::Succeeded,
{
    let mut out: Vec<CreateOutcome> = Vec::new();
    let mut i: usize = 0;
    while i < batch_len
        invariant
            i <= batch_len,
            out@.len() == i,
            forall|j: int| 0 <= j < i ==> out@[j] == spec_outcome_at(results@, j),
        decreases batch_len - i,
    {
        let mut k: usize = 0;
        let mut found: Option<CreateOutcome> = None;
        proof {
            assert(results@.subrange(0, results@.len() as int) =~= results@);
        }
        while k < results.len()
            invariant_except_break
                k <= results@.len(),
                found is None,
                spec_outcome_at(results@, i as int) == spec_outcome_at(
                    results@.subrange(k as int, results@.len() as int),
                    i as int,
                ),
            ensures
                k <= results@.len(),
                found matches Some(o) ==> o == spec_outcome_at(results@, i as int),
                found is None ==> k == results@.len() && spec_outcome_at(results@, i as int)
                    == spec_outcome_at(
                    results@.subrange(k as int, results@.len() as int),
                    i as int,
                ),
            decreases results@.len() - k,
        {
            proof {
                let suffix = results@.subrange(k as int, results@.len() as int);
                assert(suffix.first() == results@[k as int]);
                assert(suffix.drop_first() =~= results@.subrange(
                    k + 1,
                    results@.len() as int,
                ));
            }
            if results[k].index as u64 == i as u64 {
                found = Some(results[k].outcome);
                break ;
            }
            k = k + 1;
        }
        proof {
            if found is None {
                assert(results@.subrange(results@.len() as int, results@.len() as int)
                    =~= Seq::<CreateResult>::empty());
            }
        }
        match found {
            Some(o) => out.push(o),
            None => out.push(CreateOutcome::Succeeded),
        }
        i = i + 1;
    }
    out
}

/// Decodes a create-operation response into one outcome per batch item.
///
/// A zero-length payload means unconditional success for every item; a
/// non-empty payload enumerates only the failing indices.
pub fn create_outcomes_from_response(response: &[u8], batch_len: usize) -> (r: Result<
    Vec<CreateOutcome>,
    ClientError,
>)
    ensures
        r is Ok <==> response@.len() % 8 == 0 && spec_result_codes_known(response@),
        r matches Ok(v) ==> {
            &&& v@.len() == batch_len
            &&& forall|i: int|
                0 <= i < batch_len ==> v@[i] == spec_outcome_at(
                    spec_decode_results(response@),
                    i,
                )
            &&& response@.len() == 0 ==> forall|i: int|
                0 <= i < batch_len ==> v@[i] == CreateOutcome::Succeeded
        },
        response@.len() % 8 != 0 ==> r == Err::<Vec<CreateOutcome>, ClientError>(
            ClientError::MalformedRecord,
        ),
        response@.len() % 8 == 0 && !spec_result_codes_known(response@) ==> r == Err::<
            Vec<CreateOutcome>,
            ClientError,
        >(ClientError::UnknownOutcome),
{
    let results = match decode_results(response) {
        Ok(v) => v,
        Err(e) => return Err(e),
    };
    Ok(batch_outcomes(&results, batch_len))
}

/// Unmarshals a batch of account records into value bags.
pub fn unmarshal_accounts(recs: &Vec<Account>) -> (bags: Vec<AccountBag>)
    ensures
        bags@.len() == recs@.len(),
        forall|i: int|
            0 <= i < recs@.len() ==> spec_account_bag_matches(#[trigger] bags@[i], recs@[i]),
{
    let mut bags: Vec<AccountBag> = Vec::new();
    let mut i: usize = 0;
    while i < recs.len()
        invariant
            i <= recs@.len(),
            bags@.len() == i,
            forall|j: int|
                0 <= j < i ==> spec_account_bag_matches(#[trigger] bags@[j], recs@[j]),
        decreases recs@.len() - i,
    {
        let b = unmarshal_account(&recs[i]);
        bags.push(b);
        i = i + 1;
    }
    bags
}

/// Decodes a lookup response into value bags, one per record found.
///
/// Ids with no matching record are simply absent from the payload, so the
/// result holds exactly the records that exist, in encoding order.
pub fn lookup_bags_from_response(response: &[u8]) -> (r: Result<Vec<AccountBag>, ClientError>)
    ensures
        r is Ok <==> response@.len() % 128 == 0,
        r matches Ok(v) ==> {
            &&& v@.len() * 128 == response@.len()
            &&& forall|i: int|
                0 <= i < v@.len() ==> spec_account_bag_matches(
                    #[trigger] v@[i],
                    spec_decode_accounts(response@)[i],
                )
        },
        r is Err ==> r == Err::<Vec<AccountBag>, ClientError>(ClientError::MalformedRecord),
{
    let recs = match decode_accounts(response) {
        Ok(v) => v,
        Err(e) => return Err(e),
    };
    Ok(unmarshal_accounts(&recs))
}

/// Derives a 64-bit identifier from a millisecond clock reading: the
/// reading in the high half, its low decimal digits in the low half.
pub fn generate_id(now_millis: u64) -> (id: u64)
    ensures
        id == (now_millis << 32) | (now_millis % 1000000),
{
    let random_part = (now_millis % 1000000) as u32;
    (now_millis << 32) | (random_part as u64)
}

/// The application-facing client: one session, one request multiplexer.
pub struct Client {
    pub session: Session,
    pub mux: Multiplexer,
}

impl Client {
    /// Builds a client from a decimal cluster id, an address list string,
    /// and the in-flight bound of the multiplexer.
    pub fn new(cluster_id: &str, addresses: &str, max_in_flight: usize) -> (r: Result<
        Client,
        ClientError,
    >)
        ensures
            r is Ok <==> cluster_id@.len() >= 1 && all_dec_digits(cluster_id@) && dec_val(
                cluster_id@,
            ) <= u128::MAX,
            r matches Ok(c) ==> {
                &&& c.session.cluster_id == dec_val(cluster_id@)
                &&& c.session.addresses@ == addresses@
                &&& c.session.state is Disconnected
                &&& c.mux@.max_in_flight == max_in_flight as int
                &&& c.mux@.slots.len() == 0
                &&& c.mux@.outbox.len() == 0
                &&& mux_wf(c.mux@)
            },
            r is Err ==> r == Err::<Client, ClientError>(
                ClientError::InvalidNumericField(FieldName::ClusterId),
            ),
    {
        let session = match Session::new(cluster_id, addresses) {
            Ok(s) => s,
            Err(e) => return Err(e),
        };
        Ok(Client { session, mux: Multiplexer::new(max_in_flight) })
    }

    /// The cluster id, rendered as its canonical decimal string.
    pub fn get_cluster_id(&self) -> (r: String)
        ensures
            r@ == dec_str(self.session.cluster_id as nat),
            is_canonical_dec(r@),
            dec_val(r@) == self.session.cluster_id,
    {
        self.session.get_cluster_id()
    }

    /// The address list string, as given at construction.
    pub fn get_addresses(&self) -> (r: String)
        ensures
            r@ == self.session.addresses@,
    {
        self.session.get_addresses()
    }

    /// Starts connecting; see `Session::connect`.
    pub fn connect(&mut self) -> (r: Result<(), ClientError>)
        requires
            old(self).session.state is Disconnected,
        ensures
            final(self).mux == old(self).mux,
            r is Ok <==> crate::session::valid_addr_list(old(self).session.addresses@),
            r is Ok ==> final(self).session == (Session {
                state: SessionState::Connecting,
                ..old(self).session
            }),
            r is Err ==> *final(self) == *old(self) && r == Err::<(), ClientError>(
                ClientError::InvalidAddress,
            ),
    {
        self.session.connect()
    }

    /// Records that the transport came up; the multiplexer may now send
    /// and receive.
    pub fn transport_established(&mut self)
        requires
            old(self).session.state is Connecting,
        ensures
            final(self).session == (Session { state: SessionState::Connected, ..old(self).session }),
            final(self).mux == old(self).mux,
    {
        self.session.transport_established();
    }

    /// Records that the transport failed while connecting: the session is
    /// terminally failed and every pending slot (if any) resolves with the
    /// loss marker.
    pub fn transport_failed(&mut self, error: u32)
        requires
            old(self).session.state is Connecting,
        ensures
            final(self).session == (Session {
                state: SessionState::Failed,
                transport_error: Some(error),
                ..old(self).session
            }),
            final(self).mux@ =~= spec_connection_lost(old(self).mux@),
            forall|j: int|
                0 <= j < old(self).mux@.slots.len() && old(self).mux@.slots[j] is InFlight
                    ==> final(self).mux@.slots[j] is Lost,
    {
        self.session.transport_failed(error);
        self.mux.connection_lost();
    }

    /// Records that an established connection dropped: the session is
    /// disconnected and every pending slot resolves with the loss marker,
    /// so no caller waits forever.
    pub fn disconnect(&mut self)
        requires
            old(self).session.state is Connected,
        ensures
            final(self).session == (Session {
                state: SessionState::Disconnected,
                ..old(self).session
            }),
            final(self).mux@ =~= spec_connection_lost(old(self).mux@),
            forall|j: int|
                0 <= j < old(self).mux@.slots.len() && old(self).mux@.slots[j] is InFlight
                    ==> final(self).mux@.slots[j] is Lost,
    {
        self.session.disconnect();
        self.mux.connection_lost();
    }

    /// Submits a batch of account creations: marshals every bag, encodes
    /// the records, and registers the request under a fresh correlation
    /// id.
    ///
    /// Outside `Connected` the call fails with `NotConnected` before
    /// touching the multiplexer; a validation failure reports the first
    /// failing bag's error and changes nothing; at the in-flight bound the
    /// call fails deterministically with `TooManyInFlight`.
    pub fn create_accounts(&mut self, bags: &Vec<AccountBag>) -> (r: Result<usize, ClientError>)
        requires
            mux_wf(old(self).mux@),
        ensures
            mux_wf(final(self).mux@),
            final(self).session == old(self).session,
            r is Ok <==> (old(self).session.accepts_operations() && spec_accounts_all_valid(bags@)
                && spec_can_submit(old(self).mux@)),
            !old(self).session.accepts_operations() ==> *final(self) == *old(self) && r == Err::<
                usize,
                ClientError,
            >(ClientError::NotConnected),
            old(self).session.accepts_operations() && !spec_accounts_all_valid(bags@) ==> *final(self) == *old(self) && (r matches Err(e) && {
                let k = spec_first_invalid_account(bags@);
                &&& 0 <= k < bags@.len()
                &&& Err::<Account, ClientError>(e) == spec_marshal_account(bags@[k])
            }),
            old(self).session.accepts_operations() && spec_accounts_all_valid(bags@)
                && !spec_can_submit(old(self).mux@) ==> *final(self) == *old(self) && r == Err::<
                usize,
                ClientError,
            >(ClientError::TooManyInFlight),
            r matches Ok(id) ==> {
                &&& id as int == spec_submit_id(old(self).mux@)
                &&& final(self).mux@ =~= spec_submit(
                    old(self).mux@,
                    OperationKind::CreateAccounts,
                    spec_encode_accounts(spec_marshaled_accounts(bags@)),
                )
            },
    {
        if !self.session.is_connected() {
            return Err(ClientError::NotConnected);
        }
        let records = match marshal_accounts(bags) {
            Ok(v) => v,
            Err(e) => return Err(e),
        };
        let bytes = encode_accounts(&records);
        self.mux.submit(OperationKind::CreateAccounts, bytes)
    }

    /// Submits a batch of transfer creations; the same acceptance rules as
    /// for account creation.
    pub fn create_transfers(&mut self, bags: &Vec<TransferBag>) -> (r: Result<usize, ClientError>)
        requires
            mux_wf(old(self).mux@),
        ensures
            mux_wf(final(self).mux@),
            final(self).session == old(self).session,
            r is Ok <==> (old(self).session.accepts_operations() && spec_transfers_all_valid(bags@)
                && spec_can_submit(old(self).mux@)),
            !old(self).session.accepts_operations() ==> *final(self) == *old(self) && r == Err::<
                usize,
                ClientError,
            >(ClientError::NotConnected),
            old(self).session.accepts_operations() && !spec_transfers_all_valid(bags@) ==> *final(self) == *old(self) && (r matches Err(e) && {
                let k = spec_first_invalid_transfer(bags@);
                &&& 0 <= k < bags@.len()
                &&& Err::<Transfer, ClientError>(e) == spec_marshal_transfer(bags@[k])
            }),
            old(self).session.accepts_operations() && spec_transfers_all_valid(bags@)
                && !spec_can_submit(old(self).mux@) ==> *final(self) == *old(self) && r == Err::<
                usize,
                ClientError,
            >(ClientError::TooManyInFlight),
            r matches Ok(id) ==> {
                &&& id as int == spec_submit_id(old(self).mux@)
                &&& final(self).mux@ =~= spec_submit(
                    old(self).mux@,
                    OperationKind::CreateTransfers,
                    spec_encode_transfers(spec_marshaled_transfers(bags@)),
                )
            },
    {
        if !self.session.is_connected() {
            return Err(ClientError::NotConnected);
        }
        let records = match marshal_transfers(bags) {
            Ok(v) => v,
            Err(e) => return Err(e),
        };
        let bytes = encode_transfers(&records);
        self.mux.submit(OperationKind::CreateTransfers, bytes)
    }

    /// Submits a batch of account lookups: parses the ordered id strings,
    /// encodes them, and registers the request under a fresh correlation
    /// id; the same acceptance rules as for the create operations.
    pub fn lookup_accounts(&mut self, ids: &Vec<String>) -> (r: Result<usize, ClientError>)
        requires
            mux_wf(old(self).mux@),
        ensures
            mux_wf(final(self).mux@),
            final(self).session == old(self).session,
            r is Ok <==> (old(self).session.accepts_operations() && spec_ids_all_valid(ids@)
                && spec_can_submit(old(self).mux@)),
            !old(self).session.accepts_operations() ==> *final(self) == *old(self) && r == Err::<
                usize,
                ClientError,
            >(ClientError::NotConnected),
            old(self).session.accepts_operations() && !spec_ids_all_valid(ids@) ==> *final(self)
                == *old(self) && r == Err::<usize, ClientError>(
                ClientError::InvalidNumericField(FieldName::Id),
            ),
            old(self).session.accepts_operations() && spec_ids_all_valid(ids@) && !spec_can_submit(
                old(self).mux@,
            ) ==> *final(self) == *old(self) && r == Err::<usize, ClientError>(
                ClientError::TooManyInFlight,
            ),
            r matches Ok(id) ==> {
                &&& id as int == spec_submit_id(old(self).mux@)
                &&& final(self).mux@ =~= spec_submit(
                    old(self).mux@,
                    OperationKind::LookupAccounts,
                    spec_encode_ids(spec_parsed_ids(ids@)),
                )
            },
    {
        if !self.session.is_connected() {
            return Err(ClientError::NotConnected);
        }
        let parsed = match parse_ids(ids) {
            Ok(v) => v,
            Err(e) => return Err(e),
        };
        let bytes = encode_ids(&parsed);
        self.mux.submit(OperationKind::LookupAccounts, bytes)
    }

    /// Hands the next queued frame to the transport; see
    /// `Multiplexer::take_outbound`.
    pub fn take_outbound(&mut self) -> (r: Option<(usize, Vec<u8>)>)
        ensures
            final(self).session == old(self).session,
            r is None <==> old(self).mux@.outbox.len() == 0,
            r is None ==> *final(self) == *old(self),
            r matches Some(f) ==> {
                &&& old(self).mux@.outbox.len() > 0
                &&& f.0 as int == old(self).mux@.outbox[0].0
                &&& f.1@ == old(self).mux@.outbox[0].1
                &&& final(self).mux@.outbox =~= old(self).mux@.outbox.drop_first()
                &&& final(self).mux@.slots =~= old(self).mux@.slots
                &&& final(self).mux@.max_in_flight == old(self).mux@.max_in_flight
            },
    {
        self.mux.take_outbound()
    }

    /// Routes one completion frame read off the channel; see
    /// `Multiplexer::on_completion`.
    pub fn on_completion(&mut self, id: usize, response: Vec<u8>) -> (r: Result<(), ClientError>)
        ensures
            final(self).session == old(self).session,
            final(self).mux@ =~= spec_on_completion(old(self).mux@, id as int, response@),
            r is Ok <==> ((id as int) < old(self).mux@.slots.len() && (old(self).mux@.slots[id as int] is InFlight || old(self).mux@.slots[id as int] is Orphaned)),
            r is Err ==> r == Err::<(), ClientError>(ClientError::UnexpectedCompletion) && *final(self) == *old(self),
    {
        self.mux.on_completion(id, response)
    }

    /// Collects the resolution of the request holding `id`; see
    /// `Multiplexer::await_result`.
    pub fn await_result(&mut self, id: usize) -> (r: AwaitStatus)
        requires
            (id as int) < old(self).mux@.slots.len(),
            old(self).mux@.slots[id as int] is InFlight || old(self).mux@.slots[id as int]
                is Completed || old(self).mux@.slots[id as int] is Lost,
        ensures
            final(self).session == old(self).session,
            final(self).mux@ =~= spec_await_result(old(self).mux@, id as int),
            old(self).mux@.slots[id as int] is InFlight ==> r is NotReady && *final(self) == *old(self),
            old(self).mux@.slots[id as int] matches SlotView::Completed { response } ==> (r matches
                AwaitStatus::Ready(b) && b@ == response),
            old(self).mux@.slots[id as int] is Lost ==> r is Lost,
    {
        self.mux.await_result(id)
    }

    /// Abandons interest in a pending request; see `Multiplexer::cancel`.
    pub fn cancel(&mut self, id: usize)
        requires
            (id as int) < old(self).mux@.slots.len(),
            old(self).mux@.slots[id as int] is InFlight,
        ensures
            final(self).session == old(self).session,
            final(self).mux@.slots =~= old(self).mux@.slots.update(
                id as int,
                SlotView::Orphaned,
            ),
            final(self).mux@.outbox == old(self).mux@.outbox,
            final(self).mux@.max_in_flight == old(self).mux@.max_in_flight,
    {
        self.mux.cancel(id)
    }
}

} // verus!
