//! The receiving side of a UDP test: which peers make up the streams, and
//! what each datagram does to the accounts.

use vstd::prelude::*;
use vstd::set_lib::*;

use super::accounting::{Account, Delivery};
use super::binary64::Double;
use super::error::ErrorKind;
use super::jitter::{distance, distance_of, estimate_after, estimate_bits, estimate_to_bits};
use super::jitter::{is_estimate, is_transit, transit, transit_of, update, zero_is_an_estimate};
use super::jitter::Signed;
use super::time::{Duration, Instant, MAX_NANOS};
use super::udp_header::{header_of, UdpHeader, UDP_HEADER_LEN};
use crate::server::StreamReceipt;

verus! {

/// The address of a peer.
#[derive(Debug, Clone, Copy, PartialEq, Eq, Structural)]
pub struct PeerAddr {
    /// Whether the address is one of IPv6; of IPv4 otherwise.
    pub v6: bool,
    pub ip: u128,
    pub port: u16,
    pub flowinfo: u32,
    pub scope_id: u32,
}

/// What the server answers to the first datagram of a stream.
pub fn stream_ack() -> (ack: Vec<u8>)
    ensures
        ack@ == seq![54u8, 55u8, 56u8, 57u8],
{
    let ack: Vec<u8> = vec![54u8, 55u8, 56u8, 57u8];
    proof {
        assert(ack@ =~= seq![54u8, 55u8, 56u8, 57u8]);
    }
    ack
}

/// Says that `i` is the first position of `addr`.
pub open spec fn is_slot(order: Seq<PeerAddr>, addr: PeerAddr, i: int) -> bool {
    &&& 0 <= i < order.len()
    &&& order[i] == addr
    &&& forall|j: int| 0 <= j < i ==> order[j] != addr
}

fn find_slot(order: &Vec<PeerAddr>, addr: PeerAddr) -> (r: Option<usize>)
    ensures
        match r {
            Some(i) => is_slot(order@, addr, i as int),
            None => !order@.contains(addr),
        },
{
    let mut i: usize = 0;
    while i < order.len()
        invariant
            i <= order.len(),
            forall|j: int| 0 <= j < i ==> order@[j] != addr,
        decreases order.len() - i,
    {
        if order[i] == addr {
            return Some(i);
        }
        i = i + 1;
    }
    None
}

/// The start of a UDP test: the streams that have shown up so far, in the
/// order in which they did.
pub struct UdpAccept {
    pub addrs: Vec<PeerAddr>,
    pub wanted: u32,
}

impl UdpAccept {
    /// No more streams than wanted, and none twice.
    pub open spec fn wf(self) -> bool {
        &&& self.addrs@.len() <= self.wanted
        &&& self.addrs@.no_duplicates()
    }

    pub fn new(wanted: u32) -> (a: UdpAccept)
        ensures
            a.wf(),
            a.addrs@.len() == 0,
            a.wanted == wanted,
    {
        UdpAccept { addrs: Vec::new(), wanted }
    }

    /// Whether all streams have shown up.
    pub fn is_complete(&self) -> (b: bool)
        ensures
            b == (self.addrs@.len() >= self.wanted),
    {
        self.addrs.len() as u64 >= self.wanted as u64
    }

    /// A datagram came from `src`. One from a peer that was not seen before
    /// opens a stream, whatever it holds, and is to be answered: the result
    /// says whether that is so.
    pub fn on_datagram(&mut self, src: PeerAddr) -> (answer: bool)
        requires
            old(self).wf(),
            old(self).addrs@.len() < old(self).wanted,
        ensures
            final(self).wf(),
            final(self).wanted == old(self).wanted,
            answer == !old(self).addrs@.contains(src),
            final(self).addrs@ == (if answer {
                old(self).addrs@.push(src)
            } else {
                old(self).addrs@
            }),
    {
        match find_slot(&self.addrs, src) {
            Some(_) => false,
            None => {
                self.addrs.push(src);
                true
            },
        }
    }
}

// ---------------------------------------------------------------------
// Sequence numbers.

/// What the sequence numbers of a stream's datagrams have shown.
pub struct SeqAccount {
    /// The highest number so far; -1 before the first datagram.
    pub highest: int,
    /// Datagrams that are missing: those up to the highest number, without
    /// those that came.
    pub lost: int,
    /// Datagrams whose number was lower than one that came before.
    pub out_of_order: int,
    /// Datagrams in all.
    pub packets: int,
}

/// How many of the datagrams up to number `highest` are missing when
/// `packets` have come; none where repeats make up for all that are.
pub open spec fn missing(highest: int, packets: int) -> int {
    if highest + 1 > packets {
        highest + 1 - packets
    } else {
        0
    }
}

impl SeqAccount {
    /// The account before the first datagram.
    pub open spec fn empty() -> SeqAccount {
        SeqAccount { highest: -1, lost: 0, out_of_order: 0, packets: 0 }
    }

    /// The account once a datagram with number `seq` has come too. One that
    /// comes late is out of order, and no longer lost.
    pub open spec fn after(self, seq: int) -> SeqAccount {
        let highest = if seq > self.highest {
            seq
        } else {
            self.highest
        };
        SeqAccount {
            highest,
            lost: missing(highest, self.packets + 1),
            out_of_order: if seq < self.highest {
                self.out_of_order + 1
            } else {
                self.out_of_order
            },
            packets: self.packets + 1,
        }
    }

    /// What is lost is what is missing up to the highest number.
    pub open spec fn balanced(self) -> bool {
        &&& self.highest >= -1
        &&& 0 <= self.out_of_order <= self.packets
        &&& self.lost == missing(self.highest, self.packets)
    }
}

/// The account of datagrams that came with these numbers, in this order.
pub open spec fn seq_account(seqs: Seq<int>) -> SeqAccount
    decreases seqs.len(),
{
    if seqs.len() == 0 {
        SeqAccount::empty()
    } else {
        seq_account(seqs.drop_last()).after(seqs.last())
    }
}

/// Lost datagrams and those that came always add up: at any time, what is
/// lost is what is missing up to the highest number seen.
pub proof fn sequence_numbers_balance(seqs: Seq<int>)
    ensures
        seq_account(seqs).balanced(),
        seq_account(seqs).packets == seqs.len(),
    decreases seqs.len(),
{
    if seqs.len() > 0 {
        sequence_numbers_balance(seqs.drop_last());
    }
}

/// The highest number is one that came, and none that came is higher.
proof fn highest_is_reached(seqs: Seq<int>)
    requires
        forall|i: int| 0 <= i < seqs.len() ==> #[trigger] seqs[i] >= 0,
    ensures
        forall|i: int| 0 <= i < seqs.len() ==> #[trigger] seqs[i] <= seq_account(seqs).highest,
        seqs.len() > 0 ==> seqs.contains(seq_account(seqs).highest),
    decreases seqs.len(),
{
    if seqs.len() > 0 {
        let head = seqs.drop_last();
        assert forall|i: int| 0 <= i < head.len() implies #[trigger] head[i] >= 0 by {
            assert(seqs[i] >= 0);
        }
        highest_is_reached(head);
        let top = seq_account(head).highest;
        assert forall|i: int| 0 <= i < seqs.len() implies #[trigger] seqs[i] <= seq_account(
            seqs,
        ).highest by {
            if i < head.len() {
                assert(head[i] <= top);
            }
        }
        if seqs.last() > top {
            assert(seqs[seqs.len() - 1] == seqs.last());
        } else if head.len() > 0 {
            let k = choose|k: int| 0 <= k < head.len() && head[k] == top;
            assert(seqs[k] == top);
        }
    }
}

/// Where no datagram came twice, exactly those are lost that did not come,
/// in whatever order the others did: a late one is not counted as lost.
pub proof fn late_is_not_lost(seqs: Seq<int>)
    requires
        forall|i: int| 0 <= i < seqs.len() ==> #[trigger] seqs[i] >= 0,
        seqs.no_duplicates(),
    ensures
        seq_account(seqs).lost == seq_account(seqs).highest + 1 - seqs.len(),
        seq_account(seqs).lost == set_int_range(0, seq_account(seqs).highest + 1).difference(
            seqs.to_set(),
        ).len(),
{
    let top = seq_account(seqs).highest;
    let all = set_int_range(0, top + 1);
    let came = seqs.to_set();
    sequence_numbers_balance(seqs);
    highest_is_reached(seqs);
    lemma_int_range(0, top + 1);
    seqs.unique_seq_to_set();
    assert(came.subset_of(all)) by {
        assert forall|n: int| came.contains(n) implies all.contains(n) by {
            let k = choose|k: int| 0 <= k < seqs.len() && seqs[k] == n;
            assert(seqs[k] >= 0);
        }
    }
    lemma_len_subset(came, all);
    lemma_set_difference_len(all, came);
    assert(all.intersect(came) =~= came);
}

/// Datagrams that come in order, with or without gaps, are never counted as
/// out of order, and exactly the missing numbers are counted as lost. In
/// particular a stream without gaps has lost nothing.
pub proof fn gaps_are_losses(seqs: Seq<int>)
    requires
        forall|i: int| 0 <= i < seqs.len() ==> #[trigger] seqs[i] >= 0,
        forall|i: int, j: int| 0 <= i < j < seqs.len() ==> #[trigger] seqs[i] < #[trigger] seqs[j],
    ensures
        seq_account(seqs).out_of_order == 0,
        seqs.len() > 0 ==> seq_account(seqs).highest == seqs.last(),
        seqs.len() > 0 ==> seq_account(seqs).lost == seqs.last() + 1 - seqs.len(),
        seqs.len() > 0 ==> seqs.last() + 1 >= seqs.len(),
    decreases seqs.len(),
{
    if seqs.len() > 0 {
        let head = seqs.drop_last();
        gaps_are_losses(head);
        sequence_numbers_balance(seqs);
        if head.len() > 0 {
            assert(head.last() == seqs[seqs.len() - 2]);
        }
    }
}

/// What is known of one stream.
#[derive(Debug, Clone, Copy, PartialEq, Eq, Structural)]
pub struct StreamState {
    pub receipt: StreamReceipt,
    pub max_seq: i64,
    /// The jitter estimate in milliseconds.
    pub jitter: Double,
    /// How long the last datagram seems to have been on its way.
    pub last_transit: Option<Signed>,
    pub saw_sentinel: bool,
}

impl StreamState {
    /// The part of the state that goes by sequence numbers.
    pub open spec fn seqs(self) -> SeqAccount {
        SeqAccount {
            highest: self.max_seq as int,
            lost: self.receipt.lost as int,
            out_of_order: self.receipt.ooo as int,
            packets: self.receipt.packets as int,
        }
    }

    pub open spec fn wf(self) -> bool {
        &&& self.receipt.wf()
        &&& self.seqs().balanced()
        &&& is_estimate(self.jitter)
        &&& self.last_transit matches Some(t) ==> is_transit(t)
    }

    /// The receipt of the stream: what was counted, and the jitter estimate.
    pub open spec fn reports(self, r: StreamReceipt) -> bool {
        &&& r == (StreamReceipt { jitter_ms: r.jitter_ms, ..self.receipt })
        &&& r.jitter_ms.bits == estimate_bits(self.jitter)
    }

    /// A stream on which nothing came.
    pub open spec fn fresh() -> StreamState {
        StreamState {
            receipt: StreamReceipt::spec_empty(),
            max_seq: (-1) as i64,
            jitter: Double { mant: 0, exp: 0 },
            last_transit: None,
            saw_sentinel: false,
        }
    }

    /// When the first datagram came, for a stream on which one comes at
    /// `now`.
    pub open spec fn first_at(self, now: Instant) -> Instant {
        match self.receipt.first_byte_at {
            Some(f) => f,
            None => now,
        }
    }

    fn new() -> (s: StreamState)
        ensures
            s == Self::fresh(),
            s.wf(),
            s.receipt.account() == Account::empty(),
            s.seqs() == SeqAccount::empty(),
    {
        proof {
            zero_is_an_estimate();
        }
        StreamState {
            receipt: StreamReceipt::empty(),
            max_seq: -1,
            jitter: Double::zero(),
            last_transit: None,
            saw_sentinel: false,
        }
    }

    /// What a datagram of `len` bytes with the given header, seen at `now`,
    /// makes of the state: the bytes go to the account, the number to the
    /// sequence account, and the jitter estimate moves towards the distance
    /// between this transit time and the last.
    pub open spec fn counts(
        self,
        len: nat,
        header: UdpHeader,
        now: Instant,
        omit: Duration,
        after: StreamState,
    ) -> bool {
        &&& after.receipt.account() == self.receipt.account().after(
            (Delivery { bytes: len, at: now }),
            omit,
        )
        &&& after.seqs() == self.seqs().after(header.seq as int)
        &&& ({
            let since_first = Duration { nanos: now.nanos_since(self.first_at(now)) as u128 };
            let t = transit(since_first, header.tv_sec, header.tv_usec);
            &&& after.last_transit == Some(t)
            &&& after.jitter == (match self.last_transit {
                Some(prev) => estimate_after(self.jitter, distance(t, prev).size),
                None => self.jitter,
            })
        })
        &&& after.receipt.jitter_ms == self.receipt.jitter_ms
        &&& after.saw_sentinel == self.saw_sentinel
    }

    /// The counts and the clock can take a datagram of `len` bytes at `now`.
    pub open spec fn has_room(self, len: nat, now: Instant) -> bool {
        &&& self.receipt.bytes + len <= u64::MAX
        &&& self.receipt.packets < u64::MAX
        &&& now.nanos_since(self.first_at(now)) <= MAX_NANOS
    }

    fn check_room(&self, len: u64, now: Instant) -> (b: bool)
        ensures
            b == self.has_room(len as nat, now),
    {
        let first = match self.receipt.first_byte_at {
            Some(f) => f,
            None => now,
        };
        self.receipt.bytes <= u64::MAX - len && self.receipt.packets < u64::MAX
            && now.duration_since(first).nanos <= MAX_NANOS
    }

    fn count(&mut self, len: u64, header: &UdpHeader, now: Instant, omit: Duration)
        requires
            old(self).wf(),
            old(self).has_room(len as nat, now),
            header.seq >= 0,
        ensures
            final(self).wf(),
            old(self).counts(len as nat, *header, now, omit, *final(self)),
    {
        let first = match self.receipt.first_byte_at {
            Some(f) => f,
            None => now,
        };
        let t = transit_of(now.duration_since(first), header);
        if let Some(prev) = self.last_transit {
            self.jitter = update(self.jitter, distance_of(t, prev));
        }
        self.last_transit = Some(t);
        let seq: i64 = header.seq;
        self.receipt.record(len, now, omit);
        self.receipt.packets = self.receipt.packets + 1;
        if seq < self.max_seq {
            self.receipt.ooo = self.receipt.ooo + 1;
        } else {
            self.max_seq = seq;
        }
        let expected: u64 = self.max_seq as u64 + 1;
        self.receipt.lost = expected.saturating_sub(self.receipt.packets);
    }
}

/// What became of a datagram.
#[derive(Debug, Clone, Copy, PartialEq, Eq, Structural)]
pub enum DatagramOutcome {
    /// It was too short to hold a header.
    TooShort,
    /// It came from a peer that is no stream of this test.
    UnknownSource,
    /// It ended the stream at this position.
    Ended { slot: usize },
    /// It was counted for the stream at this position.
    Counted { slot: usize },
}

/// What to do before the next read, once the test is to stop.
#[derive(Debug, Clone, Copy, PartialEq, Eq, Structural)]
pub struct StopStep {
    /// The read timeout is to be brought down to `SHORT_READ_MILLIS`.
    pub shorten_timeout: bool,
    /// Nothing more is to be read.
    pub finished: bool,
}

/// How long datagrams are still taken in after the end of the test, for a
/// stream whose last datagram got lost.
pub const GRACE_MILLIS: u64 = 500;

/// How long one read waits while the test runs.
pub const READ_MILLIS: u64 = 100;

/// How long one read waits after the end of the test.
pub const SHORT_READ_MILLIS: u64 = 50;

/// The receiving side of a running UDP test.
pub struct UdpReceiver {
    /// The peers, one per stream.
    pub order: Vec<PeerAddr>,
    /// What is known of each stream.
    pub states: Vec<StreamState>,
    pub omit: Duration,
    /// When reading ends whatever comes, once the test is to stop.
    pub grace_deadline: Option<Instant>,
    pub short_timeout_set: bool,
}

impl UdpReceiver {
    /// One state per stream. A peer that stands in the order more than once
    /// is counted where it stands first.
    pub open spec fn wf(self) -> bool {
        &&& self.order@.len() == self.states@.len()
        &&& forall|i: int| 0 <= i < self.states@.len() ==> (#[trigger] self.states@[i]).wf()
        &&& forall|i: int|
            0 <= i < self.states@.len() && !is_slot(self.order@, self.order@[i], i)
                ==> #[trigger] self.states@[i] == StreamState::fresh()
    }

    /// The counts of the stream that a datagram goes to, and the clock, can
    /// take it at `now`. One that ends a stream, is too short, or comes from
    /// elsewhere needs no room.
    pub open spec fn has_room(self, src: PeerAddr, datagram: Seq<u8>, now: Instant) -> bool {
        datagram.len() >= UDP_HEADER_LEN && header_of(datagram).seq >= 0 ==> forall|i: int|
            is_slot(self.order@, src, i) ==> (#[trigger] self.states@[i]).has_room(
                datagram.len(),
                now,
            )
    }

    /// Every stream has ended.
    pub open spec fn all_ended(self) -> bool {
        forall|i: int|
            0 <= i < self.states@.len() && is_slot(self.order@, self.order@[i], i) ==> (
            #[trigger] self.states@[i]).saw_sentinel
    }

    pub fn new(order: Vec<PeerAddr>, omit: Duration) -> (r: UdpReceiver)
        ensures
            r.wf(),
            r.order == order,
            r.omit == omit,
            r.grace_deadline is None,
            !r.short_timeout_set,
            forall|i: int|
                0 <= i < r.states@.len() ==> #[trigger] r.states@[i] == StreamState::fresh(),
    {
        let mut states: Vec<StreamState> = Vec::new();
        let mut i: usize = 0;
        while i < order.len()
            invariant
                i <= order.len(),
                states@.len() == i,
                forall|j: int|
                    0 <= j < i ==> #[trigger] states@[j] == StreamState::fresh() && states@[j].wf(),
            decreases order.len() - i,
        {
            states.push(StreamState::new());
            i = i + 1;
        }
        UdpReceiver { order, states, omit, grace_deadline: None, short_timeout_set: false }
    }

    /// Whether the counts of the stream that a datagram goes to, and the
    /// clock, can take it at `now`.
    pub fn check_room(&self, src: PeerAddr, datagram: &[u8], now: Instant) -> (b: bool)
        requires
            self.wf(),
        ensures
            b == self.has_room(src, datagram@, now),
    {
        match UdpHeader::decode(datagram) {
            Err(_) => true,
            Ok(h) => {
                if h.is_sentinel() {
                    return true;
                }
                match find_slot(&self.order, src) {
                    None => true,
                    Some(i) => {
                        let b = self.states[i].check_room(datagram.len() as u64, now);
                        proof {
                            assert forall|j: int| is_slot(self.order@, src, j) implies j == i by {
                                slots_agree(self.order@, src, i as int, j);
                            }
                        }
                        b
                    },
                }
            },
        }
    }

    fn check_all_ended(&self) -> (b: bool)
        requires
            self.wf(),
        ensures
            b == self.all_ended(),
    {
        let mut i: usize = 0;
        while i < self.states.len()
            invariant
                i <= self.states.len(),
                self.wf(),
                forall|j: int|
                    0 <= j < i && is_slot(self.order@, self.order@[j], j) ==> (
                    #[trigger] self.states@[j]).saw_sentinel,
            decreases self.states.len() - i,
        {
            let slot = find_slot(&self.order, self.order[i]);
            match slot {
                Some(k) => {
                    if k == i && !self.states[i].saw_sentinel {
                        return false;
                    }
                    proof {
                        if is_slot(self.order@, self.order@[i as int], i as int) {
                            slots_agree(self.order@, self.order@[i as int], i as int, k as int);
                        }
                    }
                },
                None => {
                    proof {
                        assert(self.order@.contains(self.order@[i as int]));
                    }
                },
            }
            i = i + 1;
        }
        true
    }

    /// The test is to stop, and this is the next look at the clock. Reading
    /// goes on until every stream has ended, but no longer than the grace
    /// period after the first such look.
    pub fn on_stop(&mut self, now: Instant) -> (step: StopStep)
        requires
            old(self).wf(),
            now.nanos + GRACE_MILLIS * 1_000_000 <= u128::MAX,
        ensures
            final(self).wf(),
            final(self).order == old(self).order,
            final(self).states == old(self).states,
            final(self).omit == old(self).omit,
            final(self).grace_deadline == (match old(self).grace_deadline {
                Some(d) => Some(d),
                None => Some(Instant { nanos: (now.nanos + GRACE_MILLIS * 1_000_000) as u128 }),
            }),
            final(self).short_timeout_set,
            step.shorten_timeout == !old(self).short_timeout_set,
            step.finished == (old(self).all_ended() || now.nanos
                >= final(self).grace_deadline->0.nanos),
    {
        let deadline = match self.grace_deadline {
            Some(d) => d,
            None => now.plus(Duration::from_millis(GRACE_MILLIS)),
        };
        self.grace_deadline = Some(deadline);
        let shorten_timeout = !self.short_timeout_set;
        self.short_timeout_set = true;
        let ended = self.check_all_ended();
        StopStep { shorten_timeout, finished: ended || now.nanos >= deadline.nanos }
    }

    /// A datagram came from `src` at `now`.
    pub fn on_datagram(&mut self, src: PeerAddr, datagram: &[u8], now: Instant) -> (outcome:
        DatagramOutcome)
        requires
            old(self).wf(),
            old(self).has_room(src, datagram@, now),
        ensures
            final(self).wf(),
            final(self).order == old(self).order,
            final(self).omit == old(self).omit,
            final(self).grace_deadline == old(self).grace_deadline,
            final(self).short_timeout_set == old(self).short_timeout_set,
            outcome is TooShort <==> datagram@.len() < UDP_HEADER_LEN,
            outcome is UnknownSource <==> datagram@.len() >= UDP_HEADER_LEN && !old(
                self,
            ).order@.contains(src),
            outcome is TooShort || outcome is UnknownSource ==> final(self).states == old(
                self,
            ).states,
            outcome is Ended ==> header_of(datagram@).seq < 0,
            outcome is Counted ==> header_of(datagram@).seq >= 0,
            match outcome {
                DatagramOutcome::Ended { slot } => {
                    let state = old(self).states@[slot as int];
                    &&& is_slot(old(self).order@, src, slot as int)
                    &&& final(self).states@ == old(self).states@.update(
                        slot as int,
                        (StreamState { saw_sentinel: true, ..state }),
                    )
                },
                DatagramOutcome::Counted { slot } => {
                    let state = old(self).states@[slot as int];
                    let after = final(self).states@[slot as int];
                    let header = header_of(datagram@);
                    &&& is_slot(old(self).order@, src, slot as int)
                    &&& state.counts(datagram@.len(), header, now, old(self).omit, after)
                    &&& final(self).states@ == old(self).states@.update(slot as int, after)
                },
                _ => true,
            },
    {
        let header = match UdpHeader::decode(datagram) {
            Ok(h) => h,
            Err(_) => {
                return DatagramOutcome::TooShort;
            },
        };
        let slot: usize = match find_slot(&self.order, src) {
            Some(i) => i,
            None => {
                return DatagramOutcome::UnknownSource;
            },
        };
        proof {
            assert(self.order@[slot as int] == src);
        }
        let mut state = self.states[slot];
        if header.is_sentinel() {
            state.saw_sentinel = true;
            self.states.set(slot, state);
            return DatagramOutcome::Ended { slot };
        }
        state.count(datagram.len() as u64, &header, now, self.omit);
        self.states.set(slot, state);
        DatagramOutcome::Counted { slot }
    }

    /// The receipts of all streams, in the order of the streams. A peer that
    /// stands in the order more than once has its receipt where it stands
    /// first, and empty ones after that.
    pub fn finish(self) -> (receipts: Vec<StreamReceipt>)
        requires
            self.wf(),
        ensures
            receipts@.len() == self.order@.len(),
            forall|i: int|
                #![trigger receipts@[i]]
                0 <= i < receipts@.len() ==> self.states@[i].reports(receipts@[i]) && (!is_slot(
                    self.order@,
                    self.order@[i],
                    i,
                ) ==> receipts@[i] == StreamReceipt::spec_empty()),
    {
        let mut receipts: Vec<StreamReceipt> = Vec::new();
        let mut i: usize = 0;
        while i < self.states.len()
            invariant
                i <= self.states@.len(),
                self.wf(),
                receipts@.len() == i,
                forall|j: int|
                    #![trigger receipts@[j]]
                    0 <= j < i ==> self.states@[j].reports(receipts@[j]) && (!is_slot(
                        self.order@,
                        self.order@[j],
                        j,
                    ) ==> receipts@[j] == StreamReceipt::spec_empty()),
            decreases self.states.len() - i,
        {
            let state = self.states[i];
            let mut receipt = state.receipt;
            receipt.jitter_ms = estimate_to_bits(state.jitter);
            receipts.push(receipt);
            i = i + 1;
        }
        receipts
    }
}

proof fn slots_agree(order: Seq<PeerAddr>, addr: PeerAddr, i: int, j: int)
    requires
        is_slot(order, addr, i),
        is_slot(order, addr, j),
    ensures
        i == j,
{
}

/// Whether reading ends after a failed read: a read that merely timed out
/// ends it only once the test is to stop.
pub fn ends_on_error(kind: ErrorKind, stopping: bool) -> (b: bool)
    ensures
        b == (stopping || (kind != ErrorKind::WouldBlock && kind != ErrorKind::TimedOut)),
{
    match kind {
        ErrorKind::WouldBlock | ErrorKind::TimedOut => stopping,
        _ => true,
    }
}

/// The datagrams counted over all streams.
pub open spec fn total_packets(states: Seq<StreamState>) -> int
    decreases states.len(),
{
    if states.len() == 0 {
        0
    } else {
        total_packets(states.drop_last()) + states.last().receipt.packets
    }
}

/// The bytes counted over all streams.
pub open spec fn total_bytes(states: Seq<StreamState>) -> int
    decreases states.len(),
{
    if states.len() == 0 {
        0
    } else {
        total_bytes(states.drop_last()) + states.last().receipt.bytes
    }
}

/// A datagram that counts is counted once: for one stream, and not for any
/// other.
pub proof fn datagram_counts_once(
    states: Seq<StreamState>,
    slot: int,
    len: nat,
    header: UdpHeader,
    now: Instant,
    omit: Duration,
    after: StreamState,
)
    requires
        0 <= slot < states.len(),
        states[slot].counts(len, header, now, omit, after),
    ensures
        total_packets(states.update(slot, after)) == total_packets(states) + 1,
        total_bytes(states.update(slot, after)) == total_bytes(states) + len,
    decreases states.len(),
{
    let head = states.drop_last();
    let changed = states.update(slot, after);
    if slot == states.len() - 1 {
        assert(changed.drop_last() =~= head);
        assert(after.seqs().packets == states[slot].seqs().packets + 1);
        assert(after.receipt.account().bytes == states[slot].receipt.account().bytes + len);
    } else {
        datagram_counts_once(head, slot, len, header, now, omit, after);
        assert(changed.drop_last() =~= head.update(slot, after));
        assert(changed.last() == states.last());
    }
}

} // verus!
