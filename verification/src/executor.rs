//! The decisions of the collector's workers: what a parser, the coordinator
//! and the aggregator do with one message. The threads that run them, the
//! socket and the receiving ends of the channels belong to the program.

use crate::parse_packet::{packet_spec, parse_packet, PacketInfo, PacketModel, PacketResult};
use crate::template_ring::{installed, TemplateRing};
use crate::templates::{template_models, IPFIXTemplate, TemplateModel};
use std::collections::HashMap;
use std::sync::mpsc::{SendError, Sender};
use vstd::arithmetic::div_mod::{
    lemma_basic_div, lemma_fundamental_div_mod, lemma_fundamental_div_mod_converse,
    lemma_mod_pos_bound, lemma_mod_self_0, lemma_small_mod,
};
use vstd::arithmetic::mul::{lemma_mul_is_commutative, lemma_mul_is_distributive_add_other_way};
use vstd::prelude::*;
use vstd::slice::slice_to_vec;

verus! {

broadcast use vstd::std_specs::hash::group_hash_axioms;

/// `std::sync::mpsc::Sender`, the sending half of a channel. What the
/// channel holds is not modelled.
#[verifier::external_type_specification]
#[verifier::external_body]
#[verifier::reject_recursive_types(T)]
pub struct ExSender<T>(Sender<T>);

/// `std::sync::mpsc::SendError`, which hands back a message that found no
/// receiver.
#[verifier::external_type_specification]
#[verifier::external_body]
#[verifier::reject_recursive_types(T)]
pub struct ExSendError<T>(SendError<T>);

/// `Sender::send` puts a message into the channel, or hands it back when the
/// receiver is gone. Which of the two happens is decided outside this
/// library, so nothing is claimed of the result.
pub assume_specification<T>[ Sender::<T>::send ](tx: &Sender<T>, t: T) -> (r: Result<
    (),
    SendError<T>,
>)
;

/// A message to a parser.
#[derive(Debug, PartialEq, Eq)]
pub enum MsgToParserThread {
    /// End the parser.
    Stop,
    /// Add a template to the parser's registry.
    InstallTemplate(IPFIXTemplate),
    /// A datagram that arrived.
    Work(Vec<u8>),
}

/// A message to the coordinator.
#[derive(Debug, PartialEq, Eq)]
pub enum MsgToCoordinatorThread {
    /// End the collector.
    Stop,
    /// A parser met a template that every parser has to learn.
    NewTemplate(IPFIXTemplate),
}

/// A message to the aggregator.
#[derive(Debug, PartialEq, Eq)]
pub enum MsgToAggregatorThread {
    /// What a parser found in one datagram.
    Packet(PacketInfo),
    /// End the aggregator.
    Stop,
}

/// The mathematical value of a [`MsgToParserThread`].
pub enum ParserMessage {
    Stop,
    InstallTemplate(TemplateModel),
    Work(Seq<u8>),
}

/// The mathematical value of a [`MsgToCoordinatorThread`].
pub enum CoordinatorMessage {
    Stop,
    NewTemplate(TemplateModel),
}

/// The mathematical value of a [`MsgToAggregatorThread`].
pub enum AggregatorMessage {
    Packet(PacketModel),
    Stop,
}

impl View for MsgToParserThread {
    type V = ParserMessage;

    open spec fn view(&self) -> ParserMessage {
        match *self {
            MsgToParserThread::Stop => ParserMessage::Stop,
            MsgToParserThread::InstallTemplate(t) => ParserMessage::InstallTemplate(t@),
            MsgToParserThread::Work(pkt) => ParserMessage::Work(pkt@),
        }
    }
}

impl View for MsgToCoordinatorThread {
    type V = CoordinatorMessage;

    open spec fn view(&self) -> CoordinatorMessage {
        match *self {
            MsgToCoordinatorThread::Stop => CoordinatorMessage::Stop,
            MsgToCoordinatorThread::NewTemplate(t) => CoordinatorMessage::NewTemplate(t@),
        }
    }
}

impl View for MsgToAggregatorThread {
    type V = AggregatorMessage;

    open spec fn view(&self) -> AggregatorMessage {
        match *self {
            MsgToAggregatorThread::Packet(info) => AggregatorMessage::Packet(info@),
            MsgToAggregatorThread::Stop => AggregatorMessage::Stop,
        }
    }
}

/// The views of a sequence of messages to a parser, in order.
pub open spec fn parser_messages(msgs: Seq<MsgToParserThread>) -> Seq<ParserMessage> {
    msgs.map_values(|m: MsgToParserThread| m@)
}

/// The views of a sequence of messages to the coordinator, in order.
pub open spec fn coordinator_messages(msgs: Seq<MsgToCoordinatorThread>) -> Seq<
    CoordinatorMessage,
> {
    msgs.map_values(|m: MsgToCoordinatorThread| m@)
}

/// What a parser does after it took a message.
#[derive(Debug, PartialEq, Eq)]
pub enum ParserAction {
    /// End the parser.
    Stop,
    /// A template was installed; nothing is sent.
    Installed,
    /// The datagram was unusable; nothing is sent.
    Dropped,
    /// Send the messages of `announce` to the coordinator, in order, and
    /// then `result` to the aggregator.
    Publish { announce: Vec<MsgToCoordinatorThread>, result: MsgToAggregatorThread },
}

/// The mathematical value of a [`ParserAction`].
pub enum ParserDecision {
    Stop,
    Installed,
    Dropped,
    Publish { announce: Seq<CoordinatorMessage>, result: AggregatorMessage },
}

impl View for ParserAction {
    type V = ParserDecision;

    open spec fn view(&self) -> ParserDecision {
        match *self {
            ParserAction::Stop => ParserDecision::Stop,
            ParserAction::Installed => ParserDecision::Installed,
            ParserAction::Dropped => ParserDecision::Dropped,
            ParserAction::Publish { announce, result } => ParserDecision::Publish {
                announce: coordinator_messages(announce@),
                result: result@,
            },
        }
    }
}

/// One announcement for each of the templates `ts`, in order.
pub open spec fn announcements(ts: Seq<TemplateModel>) -> Seq<CoordinatorMessage> {
    ts.map_values(|t: TemplateModel| CoordinatorMessage::NewTemplate(t))
}

/// What a parser with the registry `reg` does with the message `msg`, and
/// the registry it has afterwards.
///
/// A template is installed. A datagram is decoded: each template that it
/// announced goes to the coordinator, in the datagram's order and whether
/// known before or not, and what the datagram held goes to the aggregator.
/// The parser's own registry changes only by the templates that it is told
/// to install.
pub open spec fn parser_spec(reg: Map<(u32, u16), TemplateModel>, msg: ParserMessage) -> (
    Map<(u32, u16), TemplateModel>,
    ParserDecision,
) {
    match msg {
        ParserMessage::Stop => (reg, ParserDecision::Stop),
        ParserMessage::InstallTemplate(t) => (installed(reg, t), ParserDecision::Installed),
        ParserMessage::Work(pkt) => match packet_spec(reg, pkt) {
            None => (reg, ParserDecision::Dropped),
            Some(p) => (
                reg,
                ParserDecision::Publish {
                    announce: announcements(p.templates),
                    result: AggregatorMessage::Packet(p),
                },
            ),
        },
    }
}

/// One turn of a parser: takes the message `msg` with the registry
/// `templates` and tells what is to be sent.
pub fn parser_step(templates: &mut TemplateRing, msg: MsgToParserThread) -> (action: ParserAction)
    ensures
        (final(templates)@, action@) == parser_spec(old(templates)@, msg@),
{
    match msg {
        MsgToParserThread::Stop => ParserAction::Stop,
        MsgToParserThread::InstallTemplate(t) => {
            templates.insert_template(t);
            ParserAction::Installed
        },
        MsgToParserThread::Work(pkt) => {
            match parse_packet(&*templates, pkt.as_slice()) {
                PacketResult::AbortError => ParserAction::Dropped,
                PacketResult::Decoded(info) => {
                    let mut announce: Vec<MsgToCoordinatorThread> = Vec::new();
                    let mut j: usize = 0;
                    while j < info.templates.len()
                        invariant
                            j <= info.templates@.len(),
                            announce@.len() == j,
                            forall|k: int|
                                0 <= k < j ==> (#[trigger] announce@[k])@
                                    == CoordinatorMessage::NewTemplate(info.templates@[k]@),
                        decreases info.templates@.len() - j,
                    {
                        announce.push(MsgToCoordinatorThread::NewTemplate(info.templates[j].clone()));
                        j = j + 1;
                    }
                    assert(coordinator_messages(announce@) =~= announcements(
                        template_models(info.templates@),
                    ));
                    ParserAction::Publish { announce, result: MsgToAggregatorThread::Packet(info) }
                },
            }
        },
    }
}

/// The coordinator's share of the work: which parser gets the next
/// datagram, and what is passed on to all of them.
pub struct Coordinator {
    parser_count: usize,
    cur_parser_thread: usize,
}

/// The mathematical value of a [`Coordinator`].
pub struct CoordinatorModel {
    /// The number of parsers.
    pub parser_count: nat,
    /// The parser that gets the next datagram.
    pub next: nat,
}

/// What the coordinator does after it took a message.
#[derive(Debug, PartialEq, Eq)]
pub enum CoordinatorAction {
    /// Send to each parser the message of `parsers` at its index.
    Broadcast { parsers: Vec<MsgToParserThread> },
    /// Send to each parser the message of `parsers` at its index, send
    /// `aggregator` to the aggregator, and end the coordinator.
    Shutdown { parsers: Vec<MsgToParserThread>, aggregator: MsgToAggregatorThread },
}

/// The mathematical value of a [`CoordinatorAction`].
pub enum CoordinatorDecision {
    Broadcast { parsers: Seq<ParserMessage> },
    Shutdown { parsers: Seq<ParserMessage>, aggregator: AggregatorMessage },
}

impl View for CoordinatorAction {
    type V = CoordinatorDecision;

    open spec fn view(&self) -> CoordinatorDecision {
        match *self {
            CoordinatorAction::Broadcast { parsers } => CoordinatorDecision::Broadcast {
                parsers: parser_messages(parsers@),
            },
            CoordinatorAction::Shutdown { parsers, aggregator } => CoordinatorDecision::Shutdown {
                parsers: parser_messages(parsers@),
                aggregator: aggregator@,
            },
        }
    }
}

/// A coordinator of `parser_count` parsers that has passed on no datagram
/// yet.
pub open spec fn fresh_coordinator(parser_count: nat) -> CoordinatorModel {
    CoordinatorModel { parser_count, next: 0 }
}

/// The coordinator after it passed on one datagram: the turn goes to the
/// next parser, and from the last one back to the first.
pub open spec fn advanced(c: CoordinatorModel) -> CoordinatorModel {
    CoordinatorModel {
        parser_count: c.parser_count,
        next: (c.next + 1) % c.parser_count,
    }
}

/// The coordinator after it passed on `k` datagrams.
pub open spec fn after(c: CoordinatorModel, k: nat) -> CoordinatorModel
    decreases k,
{
    if k == 0 {
        c
    } else {
        advanced(after(c, (k - 1) as nat))
    }
}

/// The number of datagrams that parser `i` gets of the first `total` that
/// the coordinator `c` passes on.
pub open spec fn received(c: CoordinatorModel, total: nat, i: nat) -> nat
    decreases total,
{
    if total == 0 {
        0
    } else {
        received(c, (total - 1) as nat, i) + if after(c, (total - 1) as nat).next == i {
            1nat
        } else {
            0nat
        }
    }
}

/// What the coordinator of `parser_count` parsers does with the message
/// `msg`: a new template goes to every parser; a stop goes to every parser
/// and to the aggregator, and ends the coordinator.
pub open spec fn control_spec(parser_count: nat, msg: CoordinatorMessage) -> CoordinatorDecision {
    match msg {
        CoordinatorMessage::NewTemplate(t) => CoordinatorDecision::Broadcast {
            parsers: Seq::new(parser_count, |i: int| ParserMessage::InstallTemplate(t)),
        },
        CoordinatorMessage::Stop => CoordinatorDecision::Shutdown {
            parsers: Seq::new(parser_count, |i: int| ParserMessage::Stop),
            aggregator: AggregatorMessage::Stop,
        },
    }
}

impl View for Coordinator {
    type V = CoordinatorModel;

    closed spec fn view(&self) -> CoordinatorModel {
        CoordinatorModel {
            parser_count: self.parser_count as nat,
            next: self.cur_parser_thread as nat,
        }
    }
}

impl Coordinator {
    #[verifier::type_invariant]
    spec fn well_formed(self) -> bool {
        self.cur_parser_thread < self.parser_count
    }

    /// A coordinator of `parser_count` parsers, of which the first gets the
    /// first datagram. There has to be a parser.
    pub fn new(parser_count: usize) -> (r: Option<Self>)
        ensures
            match r {
                Some(c) => parser_count > 0 && c@ == fresh_coordinator(parser_count as nat),
                None => parser_count == 0,
            },
    {
        if parser_count == 0 {
            None
        } else {
            Some(Coordinator { parser_count, cur_parser_thread: 0 })
        }
    }

    /// The number of parsers.
    pub fn parser_count(&self) -> (n: usize)
        ensures
            n == self@.parser_count,
            n > 0,
            self@.next < n,
    {
        proof {
            use_type_invariant(self);
        }
        self.parser_count
    }

    /// Passes on a datagram that arrived: gives the index of the parser
    /// whose turn it is and the message for it, a copy of the datagram, and
    /// moves the turn on.
    pub fn dispatch(&mut self, datagram: &[u8]) -> (r: (usize, MsgToParserThread))
        ensures
            r.0 == old(self)@.next,
            r.0 < old(self)@.parser_count,
            r.1@ == ParserMessage::Work(datagram@),
            final(self)@ == advanced(old(self)@),
    {
        proof {
            use_type_invariant(&*self);
        }
        let target = self.cur_parser_thread;
        self.cur_parser_thread = (self.cur_parser_thread + 1) % self.parser_count;
        (target, MsgToParserThread::Work(slice_to_vec(datagram)))
    }

    /// Takes a message from the coordinator's inbox and tells what is to be
    /// sent.
    pub fn control(&self, msg: MsgToCoordinatorThread) -> (action: CoordinatorAction)
        ensures
            action@ == control_spec(self@.parser_count, msg@),
    {
        let mut parsers: Vec<MsgToParserThread> = Vec::new();
        let mut j: usize = 0;
        match msg {
            MsgToCoordinatorThread::NewTemplate(tmp) => {
                while j < self.parser_count
                    invariant
                        j <= self.parser_count,
                        parsers@.len() == j,
                        forall|k: int|
                            0 <= k < j ==> (#[trigger] parsers@[k])@
                                == ParserMessage::InstallTemplate(tmp@),
                    decreases self.parser_count - j,
                {
                    parsers.push(MsgToParserThread::InstallTemplate(tmp.clone()));
                    j = j + 1;
                }
                assert(parser_messages(parsers@) =~= Seq::new(
                    self@.parser_count,
                    |i: int| ParserMessage::InstallTemplate(tmp@),
                ));
                CoordinatorAction::Broadcast { parsers }
            },
            MsgToCoordinatorThread::Stop => {
                while j < self.parser_count
                    invariant
                        j <= self.parser_count,
                        parsers@.len() == j,
                        forall|k: int|
                            0 <= k < j ==> (#[trigger] parsers@[k])@ == ParserMessage::Stop,
                    decreases self.parser_count - j,
                {
                    parsers.push(MsgToParserThread::Stop);
                    j = j + 1;
                }
                assert(parser_messages(parsers@) =~= Seq::new(
                    self@.parser_count,
                    |i: int| ParserMessage::Stop,
                ));
                CoordinatorAction::Shutdown { parsers, aggregator: MsgToAggregatorThread::Stop }
            },
        }
    }
}

/// The aggregator's share of the work: what the datagrams held, filed by
/// observation domain in the order of arrival.
pub struct Aggregator {
    odid_map: HashMap<u32, Vec<PacketInfo>>,
}

/// The views of a sequence of datagram results, in order.
pub open spec fn packet_models(packets: Seq<PacketInfo>) -> Seq<PacketModel> {
    packets.map_values(|p: PacketInfo| p@)
}

/// What the aggregator `agg` holds for the observation domain `odid`:
/// nothing, if it has seen no datagram of that domain.
pub open spec fn stored(agg: Map<u32, Seq<PacketModel>>, odid: u32) -> Seq<PacketModel> {
    if agg.contains_key(odid) {
        agg[odid]
    } else {
        Seq::empty()
    }
}

/// The aggregator `agg` after `p` is filed: `p` stands behind what was
/// stored for its observation domain, every other domain is as before.
pub open spec fn filed(agg: Map<u32, Seq<PacketModel>>, p: PacketModel) -> Map<
    u32,
    Seq<PacketModel>,
> {
    agg.insert(p.odid, stored(agg, p.odid).push(p))
}

impl View for Aggregator {
    type V = Map<u32, Seq<PacketModel>>;

    closed spec fn view(&self) -> Map<u32, Seq<PacketModel>> {
        self.odid_map@.map_values(|v: Vec<PacketInfo>| packet_models(v@))
    }
}

impl Aggregator {
    /// An aggregator that holds nothing.
    pub fn new() -> (r: Self)
        ensures
            r@ == Map::<u32, Seq<PacketModel>>::empty(),
    {
        let r = Aggregator { odid_map: HashMap::new() };
        assert(r@ =~= Map::<u32, Seq<PacketModel>>::empty());
        r
    }

    /// One turn of the aggregator: takes the message `msg` and tells whether
    /// the aggregator goes on. A result is filed under its observation
    /// domain, behind the results that came before it.
    pub fn step(&mut self, msg: MsgToAggregatorThread) -> (go_on: bool)
        ensures
            match msg@ {
                AggregatorMessage::Stop => !go_on && final(self)@ == old(self)@,
                AggregatorMessage::Packet(p) => go_on && final(self)@ == filed(old(self)@, p),
            },
    {
        match msg {
            MsgToAggregatorThread::Stop => false,
            MsgToAggregatorThread::Packet(d) => {
                let odid = d.odid;
                let ghost p = d@;
                let mut packets = match self.odid_map.remove(&odid) {
                    None => Vec::new(),
                    Some(v) => v,
                };
                let ghost before = packets@;
                packets.push(d);
                proof {
                    assert(packet_models(before) =~= stored(old(self)@, odid));
                    assert(packet_models(packets@) =~= packet_models(before).push(p));
                }
                self.odid_map.insert(odid, packets);
                assert(self@ =~= filed(old(self)@, p));
                true
            },
        }
    }

    /// What the aggregator holds for the observation domain `odid`, if it
    /// has seen a datagram of that domain.
    pub fn snapshot(&self, odid: u32) -> (r: Option<&Vec<PacketInfo>>)
        ensures
            match r {
                Some(v) => self@.contains_key(odid) && packet_models(v@) == self@[odid],
                None => !self@.contains_key(odid),
            },
    {
        self.odid_map.get(&odid)
    }
}

/// The handle by which the program that started the collector ends it.
pub struct IPFIXCollectorHandle {
    coordinator: Sender<MsgToCoordinatorThread>,
}

impl IPFIXCollectorHandle {
    /// A handle for the collector whose coordinator listens at the other
    /// end of `coordinator`.
    pub fn new(coordinator: Sender<MsgToCoordinatorThread>) -> (r: Self)
        ensures
            r.inbox() == coordinator,
    {
        IPFIXCollectorHandle { coordinator }
    }

    /// Asks the collector to end, with one stop message to the coordinator,
    /// which passes it on to the parsers and the aggregator. Tells whether
    /// the message was taken: it is not when the coordinator is gone. The
    /// handle stays as it was, so the collector can be asked again.
    pub fn stop(&mut self) -> (taken: bool)
        ensures
            final(self).inbox() == old(self).inbox(),
    {
        match self.coordinator.send(MsgToCoordinatorThread::Stop) {
            Ok(_) => true,
            Err(_) => false,
        }
    }

    /// The sending end of the coordinator's inbox, which the handle was made
    /// with and which its stop message goes into.
    pub closed spec fn inbox(&self) -> Sender<MsgToCoordinatorThread> {
        self.coordinator
    }
}

/// Quotient and remainder of `k + 1`, from those of `k`.
proof fn lemma_div_mod_successor(k: int, m: int)
    requires
        k >= 0,
        m > 0,
    ensures
        0 <= k % m < m,
        k % m == m - 1 ==> (k + 1) / m == k / m + 1 && (k + 1) % m == 0,
        k % m != m - 1 ==> (k + 1) / m == k / m && (k + 1) % m == k % m + 1,
{
    let q = k / m;
    let r = k % m;
    lemma_fundamental_div_mod(k, m);
    lemma_mod_pos_bound(k, m);
    lemma_mul_is_commutative(m, q);
    if r == m - 1 {
        lemma_mul_is_distributive_add_other_way(m, q, 1);
        assert((q + 1) * m == q * m + m);
        lemma_fundamental_div_mod_converse(k + 1, m, q + 1, 0);
    } else {
        lemma_fundamental_div_mod_converse(k + 1, m, q, r + 1);
    }
}

/// A fresh coordinator that has passed on `k` datagrams gives the next one
/// to parser `k mod n`.
pub proof fn lemma_turn_after(n: nat, k: nat)
    requires
        n > 0,
    ensures
        after(fresh_coordinator(n), k) == (CoordinatorModel {
            parser_count: n,
            next: (k % n) as nat,
        }),
    decreases k,
{
    let m = n as int;
    if k > 0 {
        lemma_turn_after(n, (k - 1) as nat);
        let j = (k - 1) as int;
        lemma_div_mod_successor(j, m);
        if j % m == m - 1 {
            lemma_mod_self_0(m);
        } else {
            lemma_small_mod((j % m + 1) as nat, n);
        }
    } else {
        lemma_small_mod(0, n);
    }
}

/// Of the first `total` datagrams that a fresh coordinator of `n` parsers
/// passes on, parser `i` gets `total / n`, and one more if `i` is below the
/// remainder.
pub proof fn lemma_share(n: nat, total: nat, i: nat)
    requires
        i < n,
    ensures
        received(fresh_coordinator(n), total, i) == total / n + if i < total % n {
            1nat
        } else {
            0nat
        },
    decreases total,
{
    let m = n as int;
    if total == 0 {
        lemma_small_mod(0, n);
        lemma_basic_div(0, m);
    } else {
        let k = (total - 1) as int;
        lemma_share(n, k as nat, i);
        lemma_turn_after(n, k as nat);
        lemma_div_mod_successor(k, m);
    }
}

/// The coordinator is fair: of `total` datagrams that a fresh coordinator of
/// `n` parsers passes on, every parser gets the `n`-th part, rounded down or
/// rounded up.
pub proof fn lemma_round_robin_is_fair(n: nat, total: nat, i: nat)
    requires
        i < n,
    ensures
        received(fresh_coordinator(n), total, i) == total / n || received(
            fresh_coordinator(n),
            total,
            i,
        ) == (total + n - 1) / (n as int),
        total / n <= received(fresh_coordinator(n), total, i) <= (total + n - 1) / (n as int),
{
    lemma_share(n, total, i);
    let m = n as int;
    let k = total as int;
    let q = k / m;
    let r = k % m;
    lemma_fundamental_div_mod(k, m);
    lemma_mod_pos_bound(k, m);
    lemma_mul_is_commutative(m, q);
    if r == 0 {
        lemma_fundamental_div_mod_converse(k + m - 1, m, q, m - 1);
    } else {
        lemma_mul_is_distributive_add_other_way(m, q, 1);
        assert((q + 1) * m == q * m + m);
        lemma_fundamental_div_mod_converse(k + m - 1, m, q + 1, r - 1);
    }
}

/// A coordinator whose turn is at parser `c.next` goes on as a fresh one
/// does after `c.next` datagrams.
proof fn lemma_after_from(c: CoordinatorModel, k: nat)
    requires
        c.next < c.parser_count,
    ensures
        after(c, k) == after(fresh_coordinator(c.parser_count), c.next + k),
    decreases k,
{
    if k == 0 {
        lemma_turn_after(c.parser_count, c.next);
        lemma_small_mod(c.next, c.parser_count);
    } else {
        lemma_after_from(c, (k - 1) as nat);
    }
}

/// What a parser gets from a coordinator in the middle of its work is what
/// it gets from a fresh one, less what it got before.
proof fn lemma_received_from(c: CoordinatorModel, total: nat, i: nat)
    requires
        c.next < c.parser_count,
    ensures
        received(c, total, i) + received(fresh_coordinator(c.parser_count), c.next, i)
            == received(fresh_coordinator(c.parser_count), c.next + total, i),
    decreases total,
{
    if total > 0 {
        lemma_received_from(c, (total - 1) as nat, i);
        lemma_after_from(c, (total - 1) as nat);
    }
}

/// The coordinator stays fair wherever its turn stands: of the next `total`
/// datagrams that it passes on, every parser gets the `n`-th part, rounded
/// down or rounded up.
pub proof fn lemma_round_robin_stays_fair(c: CoordinatorModel, total: nat, i: nat)
    requires
        c.next < c.parser_count,
        i < c.parser_count,
    ensures
        total / c.parser_count <= received(c, total, i) <= (total + c.parser_count - 1) / (
        c.parser_count as int),
{
    let n = c.parser_count;
    let m = n as int;
    let s = c.next as int;
    let k = total as int;
    lemma_received_from(c, total, i);
    lemma_share(n, c.next, i);
    lemma_share(n, c.next + total, i);
    lemma_small_mod(c.next, n);
    lemma_basic_div(s, m);
    let q = k / m;
    let r = k % m;
    lemma_fundamental_div_mod(k, m);
    lemma_mod_pos_bound(k, m);
    lemma_mul_is_commutative(m, q);
    lemma_mul_is_distributive_add_other_way(m, q, 1);
    assert((q + 1) * m == q * m + m);
    if r + s < m {
        lemma_fundamental_div_mod_converse(s + k, m, q, r + s);
    } else {
        lemma_fundamental_div_mod_converse(s + k, m, q + 1, r + s - m);
    }
    if r == 0 {
        lemma_fundamental_div_mod_converse(k + m - 1, m, q, m - 1);
    } else {
        lemma_fundamental_div_mod_converse(k + m - 1, m, q + 1, r - 1);
    }
}

} // verus!
