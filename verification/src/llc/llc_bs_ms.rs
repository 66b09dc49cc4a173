//! Acknowledgement bookkeeping of the logical link control on basic links: the
//! acknowledgements still to be sent back and the send sequence number of each link.
use vstd::prelude::*;
use std::collections::{HashMap, VecDeque};
use crate::address::TetraAddress;
use crate::tdma_time::TdmaTime;
use crate::bitbuffer::{BitBuffer, BitBufferView};
use crate::bits::bits_value;
use crate::llc::fcs::{check_fcs, fcs_of};
use crate::text::{decimal, push_decimal};

verus! {

/// An acknowledgement still to be sent back.
#[derive(Debug, Clone, Copy, PartialEq, Eq, Structural)]
pub struct ScheduledOutAck {
    pub addr: TetraAddress,
    pub t_start: TdmaTime,
    /// Received sequence number
    pub nr: u8,
    /// Timeslot on which the original message was received
    pub ts: u8,
}

/// Acknowledgements to send, oldest first, and the send sequence variable V(S) of each
/// link by SSI.
pub struct Llc {
    scheduled_out_acks: VecDeque<ScheduledOutAck>,
    link_send_seq: HashMap<u32, u8>,
}

/// What the LLC does with a basic-link PDU received from the MAC.
#[derive(Debug, Clone, Copy, PartialEq, Eq, Structural)]
pub enum LlcRx {
    /// Fewer than the 4 bits of the PDU type: dropped.
    TooShort,
    /// Fewer bits than the header of its type: dropped.
    HeaderTooShort,
    /// The frame check sequence does not match: dropped.
    FcsFailed,
    /// A BL-ACK: the acknowledgement `nr` of an earlier PDU, nothing for MLE.
    Ack { nr: u8 },
    /// Data for MLE, from the cursor on: TL-DATA when `acknowledged`, else TL-UNITDATA.
    /// `nr` acknowledges an earlier PDU; `ns` has been scheduled for acknowledgement.
    ToMle { acknowledged: bool, has_fcs: bool, nr: Option<u8>, ns: Option<u8> },
}

/// Header length of basic-link PDU type `t` (0 to 7): the 4 type bits, then N(R) and N(S)
/// for BL-ADATA, N(S) for BL-DATA, N(R) for BL-ACK, nothing for BL-UDATA.
pub open spec fn bl_header_len(t: nat) -> nat {
    if t % 4 == 0 {
        6
    } else if t % 4 == 2 {
        4
    } else {
        5
    }
}

/// The bit `k` places after the cursor, as 0 or 1.
pub open spec fn bit_at(v: BitBufferView, k: nat) -> u8 {
    if v.bits()[(v.pos + k) as int] { 1 } else { 0 }
}

/// The frame check sequence closing the window from the cursor on matches what precedes it.
pub open spec fn fcs_matches(v: BitBufferView) -> bool {
    v.end - v.pos >= 32 && fcs_of(v.bits().subrange(v.pos as int, v.end - 32)) == bits_value(v.bits(), v.end - 32, 32)
}

/// The PDU type of `v`, when it holds 4 bits at the cursor.
pub open spec fn bl_type(v: BitBufferView) -> Option<nat> {
    if v.pos + 4 <= v.end {
        Some(bits_value(v.bits(), v.pos as int, 4))
    } else {
        None
    }
}

/// Index of the first acknowledgement in `acks` for timeslot `tn` and SSI `ssi`, or the
/// length of `acks` when there is none.
pub open spec fn first_ack_for(acks: Seq<ScheduledOutAck>, tn: u8, ssi: u32) -> nat
    decreases acks.len(),
{
    if acks.len() == 0 {
        0
    } else if acks[0].t_start.t == tn && acks[0].addr.ssi == ssi {
        0
    } else {
        1 + first_ack_for(acks.skip(1), tn, ssi)
    }
}

/// The send sequence number of the link to `ssi`: 0 until it was first used.
pub open spec fn send_seq_of(seqs: Map<u32, u8>, ssi: u32) -> u8 {
    if seqs.contains_key(ssi) {
        seqs[ssi]
    } else {
        0
    }
}

/// One line of the list of scheduled acknowledgements.
pub open spec fn scheduled_ack_line(a: ScheduledOutAck) -> Seq<char> {
    "  t_start: "@ + decimal(a.t_start.t as nat) + ", ssi: "@ + decimal(a.addr.ssi as nat) + ", n: "@ + decimal(
        a.nr as nat,
    ) + "\n"@
}

/// The lines of the first `n` acknowledgements.
pub open spec fn scheduled_ack_lines(acks: Seq<ScheduledOutAck>, n: nat) -> Seq<char>
    decreases n,
{
    if n == 0 {
        Seq::empty()
    } else {
        scheduled_ack_lines(acks, (n - 1) as nat) + scheduled_ack_line(acks[n - 1])
    }
}

proof fn lemma_first_ack_for(acks: Seq<ScheduledOutAck>, tn: u8, ssi: u32, i: int)
    requires
        0 <= i <= acks.len(),
        forall|j: int| 0 <= j < i ==> !(#[trigger] acks[j].t_start.t == tn && acks[j].addr.ssi == ssi),
        i < acks.len() ==> acks[i].t_start.t == tn && acks[i].addr.ssi == ssi,
    ensures
        first_ack_for(acks, tn, ssi) == i,
    decreases acks.len(),
{
    if acks.len() > 0 && i > 0 {
        assert forall|j: int| 0 <= j < i - 1 implies !(#[trigger] acks.skip(1)[j].t_start.t == tn && acks.skip(
            1,
        )[j].addr.ssi == ssi) by {
            assert(acks.skip(1)[j] == acks[j + 1]);
        }
        lemma_first_ack_for(acks.skip(1), tn, ssi, i - 1);
    }
}

impl Llc {
    /// The acknowledgements still to be sent, oldest first.
    pub closed spec fn out_acks(&self) -> Seq<ScheduledOutAck> {
        self.scheduled_out_acks@
    }

    /// The send sequence variables of the links used so far, by SSI.
    pub closed spec fn send_seqs(&self) -> Map<u32, u8> {
        self.link_send_seq@
    }

    /// Every send sequence variable is 0 or 1.
    pub open spec fn wf(&self) -> bool {
        forall|ssi: u32| #[trigger] self.send_seqs().contains_key(ssi) ==> self.send_seqs()[ssi] <= 1
    }

    /// No acknowledgement to send, no link used yet.
    pub fn new() -> (r: Self)
        ensures
            r.out_acks() == Seq::<ScheduledOutAck>::empty(),
            r.send_seqs() == Map::<u32, u8>::empty(),
            r.wf(),
    {
        Self { scheduled_out_acks: VecDeque::new(), link_send_seq: HashMap::new() }
    }

    /// Schedule an acknowledgement of sequence number `ns` to `addr`, received at `dltime`.
    pub fn schedule_outgoing_ack(&mut self, dltime: TdmaTime, addr: TetraAddress, ns: u8)
        ensures
            final(self).out_acks() == old(self).out_acks().push(
                ScheduledOutAck { t_start: dltime, nr: ns, addr, ts: dltime.t },
            ),
            final(self).send_seqs() == old(self).send_seqs(),
    {
        self.scheduled_out_acks.push_back(ScheduledOutAck { t_start: dltime, nr: ns, addr, ts: dltime.t });
    }

    /// Receive a basic-link PDU `pdu` from `main_address` at `dltime`. Its 4-bit type (one
    /// of the eight basic-link types) says which of N(R) and N(S) follow and whether a frame
    /// check sequence closes it. A PDU with a bad frame check sequence is dropped; otherwise
    /// N(S) is scheduled for acknowledgement, and data PDUs go to MLE with the window starting
    /// after the header.
    pub fn rx_tma_unitdata_ind_bl(&mut self, pdu: &mut BitBuffer, dltime: TdmaTime, main_address: TetraAddress) -> (r: LlcRx)
        requires
            old(pdu)@.wf(),
            bl_type(old(pdu)@) matches Some(t) ==> t < 8 && (t >= 4 && old(pdu)@.pos + bl_header_len(t) <= old(pdu)@.end
                ==> old(pdu)@.end - (old(pdu)@.pos + bl_header_len(t)) != 32),
        ensures
            final(self).send_seqs() == old(self).send_seqs(),
            bl_type(old(pdu)@) is None ==> r == LlcRx::TooShort && final(pdu)@ == old(pdu)@ && final(self).out_acks()
                == old(self).out_acks(),
            bl_type(old(pdu)@) matches Some(t) ==> {
                let v = old(pdu)@;
                let h = v.pos + bl_header_len(t);
                let after = BitBufferView { pos: h, ..v };
                let nr = if t % 4 == 0 { Some(bit_at(v, 4)) } else if t % 4 == 3 { Some(bit_at(v, 4)) } else { None::<u8> };
                let ns = if t % 4 == 0 { Some(bit_at(v, 5)) } else if t % 4 == 1 { Some(bit_at(v, 4)) } else { None::<u8> };
                if h > v.end {
                    r == LlcRx::HeaderTooShort && final(pdu)@ == v && final(self).out_acks() == old(self).out_acks()
                } else if t >= 4 && !fcs_matches(after) {
                    r == LlcRx::FcsFailed && final(pdu)@ == after && final(self).out_acks() == old(self).out_acks()
                } else {
                    &&& final(self).out_acks() == match ns {
                        Some(n) => old(self).out_acks().push(ScheduledOutAck { t_start: dltime, nr: n, addr: main_address, ts: dltime.t }),
                        None => old(self).out_acks(),
                    }
                    &&& if t % 4 == 3 {
                        r == LlcRx::Ack { nr: bit_at(v, 4) } && final(pdu)@ == after
                    } else {
                        &&& r == LlcRx::ToMle { acknowledged: t % 4 != 2, has_fcs: t >= 4, nr, ns }
                        &&& final(pdu)@ == BitBufferView { start: h, ..after }
                    }
                }
            },
    {
        let t = match pdu.peek_bits(4) {
            Some(t) => t,
            None => {
                return LlcRx::TooShort;
            },
        };
        proof {
            crate::bits::lemma_bits_value_bound(old(pdu)@.bits(), old(pdu)@.pos as int, 4);
            vstd::arithmetic::power2::lemma2_to64();
        }
        let kind = t % 4;
        let has_fcs = t >= 4;
        let hlen: usize = if kind == 0 { 6 } else if kind == 2 { 4 } else { 5 };
        if pdu.get_len_remaining() < hlen {
            return LlcRx::HeaderTooShort;
        }
        pdu.seek_rel(4);
        let mut nr: Option<u8> = None;
        let mut ns: Option<u8> = None;
        if kind == 0 {
            nr = pdu.read_bit();
            ns = pdu.read_bit();
        } else if kind == 1 {
            ns = pdu.read_bit();
        } else if kind == 3 {
            nr = pdu.read_bit();
        }
        if has_fcs && !check_fcs(pdu) {
            return LlcRx::FcsFailed;
        }
        if let Some(n) = ns {
            self.schedule_outgoing_ack(dltime, main_address, n);
        }
        if kind == 3 {
            return LlcRx::Ack { nr: match nr { Some(n) => n, None => 0 } };
        }
        let p = pdu.get_raw_pos();
        pdu.set_raw_start(p);
        LlcRx::ToMle { acknowledged: kind != 2, has_fcs, nr, ns }
    }

    /// Take the first scheduled acknowledgement for timeslot `tn` and the SSI of `addr`,
    /// returning its sequence number.
    pub fn get_out_ack_seq_if_any(&mut self, tn: u8, addr: TetraAddress) -> (r: Option<u8>)
        ensures
            ({
                let i = first_ack_for(old(self).out_acks(), tn, addr.ssi);
                &&& i < old(self).out_acks().len() ==> r == Some(old(self).out_acks()[i as int].nr) && final(self).out_acks() == old(self).out_acks().remove(i as int)
                &&& i >= old(self).out_acks().len() ==> r is None && final(self).out_acks() == old(self).out_acks()
            }),
            final(self).send_seqs() == old(self).send_seqs(),
    {
        let ghost acks = self.scheduled_out_acks@;
        let n = self.scheduled_out_acks.len();
        let mut i: usize = 0;
        while i < n
            invariant
                n == acks.len(),
                acks == self.scheduled_out_acks@,
                self.link_send_seq@ == old(self).link_send_seq@,
                acks == old(self).scheduled_out_acks@,
                i <= n,
                forall|j: int| 0 <= j < i ==> !(#[trigger] acks[j].t_start.t == tn && acks[j].addr.ssi == addr.ssi),
            decreases n - i,
        {
            let a = self.scheduled_out_acks[i];
            if a.t_start.t == tn && a.addr.ssi == addr.ssi {
                proof {
                    lemma_first_ack_for(acks, tn, addr.ssi, i as int);
                }
                let nr = a.nr;
                self.scheduled_out_acks.remove(i);
                return Some(nr);
            }
            i = i + 1;
        }
        proof {
            lemma_first_ack_for(acks, tn, addr.ssi, n as int);
        }
        None
    }

    /// The send sequence number N(S) for the link to `addr`, after which the link's send
    /// sequence variable toggles; each link starts at 0.
    pub fn get_next_send_seq(&mut self, addr: &TetraAddress) -> (r: u8)
        ensures
            r == send_seq_of(old(self).send_seqs(), addr.ssi),
            final(self).send_seqs() == old(self).send_seqs().insert(addr.ssi, r ^ 1),
            final(self).out_acks() == old(self).out_acks(),
            old(self).wf() ==> final(self).wf() && r <= 1,
    {
        broadcast use vstd::std_specs::hash::group_hash_axioms;
        let ns = match self.link_send_seq.get(&addr.ssi) {
            Some(v) => *v,
            None => 0,
        };
        self.link_send_seq.insert(addr.ssi, ns ^ 1);
        proof {
            if old(self).wf() {
                assert(ns <= 1 ==> (ns ^ 1u8) <= 1) by (bit_vector);
            }
        }
        ns
    }

    /// The scheduled acknowledgements as text, one line each under a heading.
    pub fn format_scheduled_ack_list(ack_list: &Vec<ScheduledOutAck>) -> (r: String)
        ensures
            r@ == "Scheduled out acks:\n"@ + scheduled_ack_lines(ack_list@, ack_list@.len()),
    {
        let mut ret = String::new();
        ret.append("Scheduled out acks:\n");
        let mut i: usize = 0;
        while i < ack_list.len()
            invariant
                i <= ack_list@.len(),
                ret@ == "Scheduled out acks:\n"@ + scheduled_ack_lines(ack_list@, i as nat),
            decreases ack_list@.len() - i,
        {
            let a = ack_list[i];
            ret.append("  t_start: ");
            push_decimal(&mut ret, a.t_start.t as u64);
            ret.append(", ssi: ");
            push_decimal(&mut ret, a.addr.ssi as u64);
            ret.append(", n: ");
            push_decimal(&mut ret, a.nr as u64);
            ret.append("\n");
            proof {
                assert(ret@ =~= "Scheduled out acks:\n"@ + scheduled_ack_lines(ack_list@, (i + 1) as nat));
            }
            i = i + 1;
        }
        ret
    }
}

/// Each link alternates its send sequence numbers 0, 1, 0, 1, ...: the number handed out
/// next is the other one of the number just handed out.
pub proof fn lemma_send_seq_alternates(seqs: Map<u32, u8>, ssi: u32)
    requires
        forall|s: u32| #[trigger] seqs.contains_key(s) ==> seqs[s] <= 1,
    ensures
        send_seq_of(seqs, ssi) <= 1,
        send_seq_of(seqs.insert(ssi, send_seq_of(seqs, ssi) ^ 1), ssi) != send_seq_of(seqs, ssi),
        send_seq_of(seqs.insert(ssi, send_seq_of(seqs, ssi) ^ 1), ssi) <= 1,
{
    let v = send_seq_of(seqs, ssi);
    assert(v <= 1 ==> (v ^ 1u8) != v && (v ^ 1u8) <= 1) by (bit_vector);
}

} // verus!
