//! Feed groups: the feeds of one kind, the ring they publish to, and the
//! workers that poll them. The decisions live here; spawning and pinning
//! threads is the caller's part.

use vstd::prelude::*;
use crate::feed::{payload_view, subscribe_needed, unsubscribe_needed, Feed, FeedTransport, StreamSet};
use crate::messages::{padded, DummyParser, RawMessage, RAW_MESSAGE_SIZE};
use crate::ring::{lemma_publish_then_consume, slot_of, PubSubRing};
use crate::text::same_text;

verus! {

/// A control message for a worker.
pub enum FeedGroupWorkerCommand<P: FeedTransport> {
    /// Adds a feed, replacing the one of the same name.
    AddFeed(Feed<P>),
    /// Removes the feed of this name.
    RemoveFeed(String),
    /// Adds a stream to the worker's target set and reconciles its feeds.
    AddStream(String),
    /// Removes a stream from the target set and reconciles the feeds.
    RemoveStream(String),
}

/// The acknowledgement of a command.
pub enum FeedGroupWorkerCommandAck<P: FeedTransport> {
    /// The feed that was replaced, if any.
    AddFeed(Option<Feed<P>>),
    /// The feed that was removed, if any.
    RemoveFeed(Option<Feed<P>>),
    /// Whether the stream was new to the target set.
    AddStream(bool),
    /// The stream that was removed, if it was there.
    RemoveStream(Option<String>),
}

/// The feeds one worker owns, and the streams they should carry.
pub struct Worker<P: FeedTransport> {
    feeds: Vec<Feed<P>>,
    target: StreamSet,
}

/// A payload the parser turns into a record.
pub open spec fn acceptable(b: Seq<u8>) -> bool {
    vstd::utf8::valid_utf8(b) && b.len() <= RAW_MESSAGE_SIZE
}

/// The records that a sequence of poll results gives, in order: one padded
/// record per acceptable payload.
pub open spec fn accepted(ps: Seq<Option<Seq<u8>>>) -> Seq<Seq<u8>>
    decreases ps.len(),
{
    if ps.len() == 0 {
        Seq::empty()
    } else {
        accepted(ps.drop_last()) + match ps.last() {
            Some(b) => if acceptable(b) {
                seq![padded(b)]
            } else {
                Seq::empty()
            },
            None => Seq::empty(),
        }
    }
}

/// The bytes of a sequence of records.
pub open spec fn record_views(h: Seq<RawMessage>) -> Seq<Seq<u8>> {
    h.map_values(|m: RawMessage| m@)
}

/// The last poll result of each feed.
pub open spec fn last_polls<P: FeedTransport>(fs: Seq<Feed<P>>) -> Seq<Option<Seq<u8>>> {
    fs.map_values(|f: Feed<P>| f.received_log().last())
}

/// No feed of `fs` needs a frame to carry the streams `t`.
pub open spec fn no_frames_needed<P: FeedTransport>(fs: Seq<Feed<P>>, t: Seq<Seq<char>>) -> bool {
    forall|k: int| 0 <= k < fs.len() ==> !unsubscribe_needed((#[trigger] fs[k]).stream_view(), t)
        && !subscribe_needed(fs[k].stream_view(), t)
}

/// `r` is what applying `cmd` to a worker with feeds `bf` and target `bt`
/// gives, leaving feeds `af` and target `at`.
pub open spec fn applied<P: FeedTransport>(
    bf: Seq<Feed<P>>,
    bt: Seq<Seq<char>>,
    cmd: FeedGroupWorkerCommand<P>,
    af: Seq<Feed<P>>,
    at: Seq<Seq<char>>,
    r: Result<FeedGroupWorkerCommandAck<P>, P::Error>,
) -> bool {
    &&& match cmd {
        FeedGroupWorkerCommand::AddFeed(f) => match first_named(bf, f.name_view()) {
            Some(k) => r == Ok::<_, P::Error>(FeedGroupWorkerCommandAck::AddFeed(Some(bf[k])))
                && af == bf.update(k, f),
            None => r == Ok::<_, P::Error>(FeedGroupWorkerCommandAck::<P>::AddFeed(None))
                && af == bf.push(f),
        },
        FeedGroupWorkerCommand::RemoveFeed(name) => match first_named(bf, name@) {
            Some(k) => r == Ok::<_, P::Error>(FeedGroupWorkerCommandAck::RemoveFeed(Some(bf[k])))
                && af == bf.remove(k),
            None => r == Ok::<_, P::Error>(FeedGroupWorkerCommandAck::<P>::RemoveFeed(None))
                && af == bf,
        },
        FeedGroupWorkerCommand::AddStream(s) => {
            &&& bt.contains(s@) ==> at == bt
                && (r is Ok ==> (r->Ok_0 matches FeedGroupWorkerCommandAck::AddStream(false)))
            &&& !bt.contains(s@) ==> at == bt.push(s@)
                && (r is Ok ==> (r->Ok_0 matches FeedGroupWorkerCommandAck::AddStream(true)))
        },
        FeedGroupWorkerCommand::RemoveStream(s) => {
            &&& !bt.contains(s@) ==> at == bt
                && (r is Ok ==> (r->Ok_0 matches FeedGroupWorkerCommandAck::RemoveStream(None)))
            &&& bt.contains(s@) ==> at == bt.remove(bt.index_of(s@))
                && (r is Ok ==> r->Ok_0 is RemoveStream && r->Ok_0->RemoveStream_0 is Some
                    && r->Ok_0->RemoveStream_0->0@ == s@)
        },
    }
    &&& (cmd is AddStream || cmd is RemoveStream) ==> feed_names(af) == feed_names(bf)
    &&& r is Ok && (cmd is AddStream || cmd is RemoveStream) ==> forall|k: int| 0 <= k < af.len() ==> #[trigger] af[k].stream_view() == at
    &&& (cmd is AddStream || cmd is RemoveStream) && no_frames_needed(bf, at) ==> r is Ok
}

/// The first `m` feeds of `of` have been polled once each, giving `ff`; the
/// others have not been polled.
pub open spec fn polled_upto<P: FeedTransport>(of: Seq<Feed<P>>, ff: Seq<Feed<P>>, m: int) -> bool {
    &&& 0 <= m <= of.len()
    &&& ff.len() == of.len()
    &&& forall|k: int| 0 <= k < m ==> (#[trigger] ff[k]).received_log() == of[k].received_log().push(
        ff[k].received_log().last(),
    )
    &&& forall|k: int| m <= k < of.len() ==> (#[trigger] ff[k]).received_log() == of[k].received_log()
}

/// Each command in turn, from `states[j]` to `states[j + 1]`, gave `outs[j]`.
pub open spec fn applied_in_order<P: FeedTransport>(
    states: Seq<(Seq<Feed<P>>, Seq<Seq<char>>)>,
    cmds: Seq<FeedGroupWorkerCommand<P>>,
    outs: Seq<Result<FeedGroupWorkerCommandAck<P>, P::Error>>,
) -> bool {
    &&& states.len() == outs.len() + 1
    &&& outs.len() <= cmds.len()
    &&& forall|j: int| 0 <= j < outs.len() ==> applied(
        states[j].0,
        states[j].1,
        #[trigger] cmds[j],
        states[j + 1].0,
        states[j + 1].1,
        outs[j],
    )
}

/// What one round of a worker did: it polled the first `m` of its feeds `of`
/// (leaving them as `polled`) and published the records their payloads give;
/// if every poll succeeded, it then applied the commands in order, through
/// `states`, each with its outcome in `outs`, acknowledging each success in
/// `acks`, and stopped at the first failure.
pub open spec fn round_trace<P: FeedTransport>(
    of: Seq<Feed<P>>,
    ot: Seq<Seq<char>>,
    oh: Seq<RawMessage>,
    cmds: Seq<FeedGroupWorkerCommand<P>>,
    ff: Seq<Feed<P>>,
    ft: Seq<Seq<char>>,
    fh: Seq<RawMessage>,
    acks: Seq<FeedGroupWorkerCommandAck<P>>,
    r: Result<(), P::Error>,
    polled: Seq<Feed<P>>,
    m: int,
    states: Seq<(Seq<Feed<P>>, Seq<Seq<char>>)>,
    outs: Seq<Result<FeedGroupWorkerCommandAck<P>, P::Error>>,
) -> bool {
    &&& polled_upto(of, polled, m)
    &&& record_views(fh) == record_views(oh) + accepted(last_polls(polled.subrange(0, m)))
    &&& m < of.len() ==> r is Err && acks.len() == 0
    &&& m == of.len() ==> {
        &&& applied_in_order(states, cmds, outs)
        &&& states[0] == (polled, ot)
        &&& states.last() == (ff, ft)
        &&& acks.len() <= outs.len()
        &&& forall|j: int| 0 <= j < acks.len() ==> #[trigger] outs[j] == Ok::<_, P::Error>(acks[j])
        &&& r is Ok ==> acks.len() == cmds.len() && outs.len() == cmds.len()
        &&& r is Err ==> outs.len() == acks.len() + 1 && outs.last() == Err::<FeedGroupWorkerCommandAck<P>, _>(r->Err_0)
    }
}

/// The names of a sequence of feeds.
pub open spec fn feed_names<P: FeedTransport>(fs: Seq<Feed<P>>) -> Seq<Seq<char>> {
    fs.map_values(|f: Feed<P>| f.name_view())
}

/// The first position in `fs` of a feed named `name`, if any.
pub open spec fn first_named<P: FeedTransport>(fs: Seq<Feed<P>>, name: Seq<char>) -> Option<int> {
    feed_names(fs).index_of_first(name)
}

impl<P: FeedTransport> Worker<P> {
    pub closed spec fn feeds_view(&self) -> Seq<Feed<P>> {
        self.feeds@
    }

    pub closed spec fn target_view(&self) -> Seq<Seq<char>> {
        self.target@
    }

    pub closed spec fn wf(&self) -> bool {
        self.target.wf()
    }

    /// A worker for `feeds`, whose target is `target`.
    pub fn new(feeds: Vec<Feed<P>>, target: StreamSet) -> (r: Worker<P>)
        requires
            target.wf(),
        ensures
            r.wf(),
            r.feeds_view() == feeds@,
            r.target_view() == target@,
    {
        Worker { feeds, target }
    }

    /// Number of feeds.
    pub fn feed_count(&self) -> (r: usize)
        ensures
            r == self.feeds_view().len(),
    {
        self.feeds.len()
    }

    /// Position of the first feed named `name`.
    fn position(&self, name: &str) -> (r: Option<usize>)
        ensures
            match r {
                None => first_named(self.feeds_view(), name@) is None,
                Some(k) => first_named(self.feeds_view(), name@) == Some(k as int) && k < self.feeds_view().len(),
            },
    {
        let ghost names = feed_names(self.feeds@);
        let mut i: usize = 0;
        while i < self.feeds.len()
            invariant
                0 <= i <= self.feeds.len(),
                names == feed_names(self.feeds@),
                forall|k: int| 0 <= k < i ==> names[k] != name@,
            decreases self.feeds.len() - i,
        {
            if same_text(self.feeds[i].name(), name) {
                proof {
                    assert(names[i as int] == name@);
                    assert(names.contains(name@));
                    names.index_of_first_ensures(name@);
                    let j = names.index_of_first(name@)->0;
                    if j < i {
                        assert(names[j] == name@);
                    } else if j > i {
                        assert(names[i as int] != name@);
                    }
                }
                return Some(i);
            }
            i = i + 1;
        }
        proof {
            names.index_of_first_ensures(name@);
        }
        None
    }

    /// One round of the worker loop: polls each feed once, first feed first,
    /// and publishes every payload the parser accepts; refused payloads are
    /// dropped. Returns how many records were published, or the first
    /// transport error.
    pub fn poll_once(&mut self, ring: &mut PubSubRing, parser: &mut DummyParser) -> (r: Result<usize, P::Error>)
        requires
            old(ring).wf(),
            !old(ring).is_in_flight(),
            old(ring).head_seq() + old(self).feeds_view().len() < u64::MAX,
        ensures
            final(ring).wf(),
            !final(ring).is_in_flight(),
            final(ring).capacity() == old(ring).capacity(),
            final(ring).head_seq() <= old(ring).head_seq() + old(self).feeds_view().len(),
            r is Ok ==> final(ring).head_seq() == old(ring).head_seq() + r->Ok_0 && r->Ok_0 <= old(self).feeds_view().len(),
            r is Ok ==> final(self).feeds_view().len() == old(self).feeds_view().len() && (forall|k: int|
                0 <= k < old(self).feeds_view().len() ==> (#[trigger] final(self).feeds_view()[k]).received_log()
                    == old(self).feeds_view()[k].received_log().push(final(self).feeds_view()[k].received_log().last()))
                && record_views(final(ring).history()) == record_views(old(ring).history()) + accepted(
                last_polls(final(self).feeds_view()),
            ),
            feed_names(final(self).feeds_view()) == feed_names(old(self).feeds_view()),
            final(self).target_view() == old(self).target_view(),
            final(self).wf() == old(self).wf(),
            old(self).feeds_view().len() == 0 ==> r is Ok,
            exists|m: int| {
                &&& polled_upto(old(self).feeds_view(), final(self).feeds_view(), m)
                &&& (r is Ok <==> m == old(self).feeds_view().len())
                &&& record_views(final(ring).history()) == record_views(old(ring).history()) + accepted(
                    last_polls(final(self).feeds_view().subrange(0, m)),
                )
            },
    {
        let n = self.feeds.len();
        let mut published: usize = 0;
        let mut i: usize = 0;
        while i < n
            invariant
                n == self.feeds@.len(),
                n == old(self).feeds@.len(),
                0 <= published <= i <= n,
                ring.wf(),
                !ring.is_in_flight(),
                ring.capacity() == old(ring).capacity(),
                ring.head_seq() == old(ring).head_seq() + published,
                old(ring).head_seq() + n < u64::MAX,
                feed_names(self.feeds@) == feed_names(old(self).feeds@),
                self.target == old(self).target,
                forall|k: int| i <= k < n ==> self.feeds@[k] == old(self).feeds@[k],
                forall|k: int| 0 <= k < i ==> (#[trigger] self.feeds@[k]).received_log()
                    == old(self).feeds@[k].received_log().push(self.feeds@[k].received_log().last()),
                record_views(ring.history()) == record_views(old(ring).history()) + accepted(
                    last_polls(self.feeds@.subrange(0, i as int)),
                ),
            decreases n - i,
        {
            let ghost prev_feeds = self.feeds@;
            let ghost prev_hist = ring.history();
            let mut feed = self.feeds.remove(i);
            let polled = feed.poll();
            match &polled {
                Err(_) => {},
                Ok(p) => {
                    proof {
                        assert(feed.received_log().last() == payload_view(*p));
                    }
                },
            }
            self.feeds.insert(i, feed);
            proof {
                assert(feed_names(self.feeds@) =~= feed_names(old(self).feeds@));
            }
            let ghost pv = if polled is Ok {
                payload_view(polled->Ok_0)
            } else {
                None
            };
            match polled {
                Err(e) => {
                    proof {
                        assert(self.feeds@.subrange(0, i as int) =~= prev_feeds.subrange(0, i as int));
                        assert(polled_upto(old(self).feeds@, self.feeds@, i as int));
                    }
                    return Err(e);
                },
                Ok(None) => {},
                Ok(Some(data)) => {
                    let ghost hist = ring.history();
                    if handle_payload(ring, parser, data.as_slice()) {
                        published = published + 1;
                        proof {
                            assert(record_views(ring.history()) =~= record_views(hist).push(padded(data@)));
                        }
                    }
                },
            }
            proof {
                let lp = last_polls(self.feeds@.subrange(0, i + 1));
                assert(self.feeds@[i as int].received_log().last() == pv);
                assert(lp.drop_last() =~= last_polls(prev_feeds.subrange(0, i as int)));
                assert(last_polls(prev_feeds.subrange(0, i as int)) =~= last_polls(self.feeds@.subrange(0, i as int)));
                assert(lp.last() == self.feeds@[i as int].received_log().last());
                assert(record_views(ring.history()) =~= record_views(old(ring).history()) + accepted(lp));
            }
            i = i + 1;
        }
        proof {
            assert(self.feeds@.subrange(0, n as int) =~= self.feeds@);
            assert(polled_upto(old(self).feeds@, self.feeds@, n as int));
        }
        Ok(published)
    }

    /// One round of the worker loop: polls every feed once and publishes what
    /// the parser accepts, then applies the commands queued so far, in order,
    /// appending one acknowledgement per applied command to `acks`. The first
    /// transport error ends the round and is returned; the acknowledgements of
    /// the commands applied before it stay in `acks`.
    pub fn step(
        &mut self,
        ring: &mut PubSubRing,
        parser: &mut DummyParser,
        queued: Vec<FeedGroupWorkerCommand<P>>,
        acks: &mut Vec<FeedGroupWorkerCommandAck<P>>,
    ) -> (r: Result<(), P::Error>)
        requires
            old(self).wf(),
            old(ring).wf(),
            !old(ring).is_in_flight(),
            old(ring).head_seq() + old(self).feeds_view().len() < u64::MAX,
        ensures
            final(self).wf(),
            final(ring).wf(),
            !final(ring).is_in_flight(),
            final(ring).capacity() == old(ring).capacity(),
            final(ring).head_seq() <= old(ring).head_seq() + old(self).feeds_view().len(),
            old(acks)@.len() <= final(acks)@.len(),
            final(acks)@.subrange(0, old(acks)@.len() as int) == old(acks)@,
            exists|polled: Seq<Feed<P>>, m: int, states: Seq<(Seq<Feed<P>>, Seq<Seq<char>>)>, outs: Seq<
                Result<FeedGroupWorkerCommandAck<P>, P::Error>,
            >|
                round_trace(
                    old(self).feeds_view(),
                    old(self).target_view(),
                    old(ring).history(),
                    queued@,
                    final(self).feeds_view(),
                    final(self).target_view(),
                    final(ring).history(),
                    final(acks)@.subrange(old(acks)@.len() as int, final(acks)@.len() as int),
                    r,
                    polled,
                    m,
                    states,
                    outs,
                ),
            old(self).feeds_view().len() == 0 && (forall|j: int| 0 <= j < queued@.len() ==> (#[trigger] queued@[j]) is AddFeed
                || queued@[j] is RemoveFeed) ==> r is Ok,
    {
        let ghost of = self.feeds@;
        let ghost ot = self.target@;
        let ghost oh = ring.history();
        let ghost cmds = queued@;
        let ghost base = acks@;
        let polled_r = self.poll_once(ring, parser);
        let ghost polled = self.feeds@;
        let ghost m = choose|m: int| {
            &&& polled_upto(of, polled, m)
            &&& (polled_r is Ok <==> m == of.len())
            &&& record_views(ring.history()) == record_views(oh) + accepted(last_polls(polled.subrange(0, m)))
        };
        match polled_r {
            Err(e) => {
                proof {
                    assert(acks@.subrange(base.len() as int, acks@.len() as int) =~= Seq::<FeedGroupWorkerCommandAck<P>>::empty());
                    assert(acks@.subrange(0, base.len() as int) =~= base);
                    assert(round_trace(of, ot, oh, cmds, self.feeds@, self.target@, ring.history(),
                        acks@.subrange(base.len() as int, acks@.len() as int), Err::<(), P::Error>(e), polled, m,
                        seq![(polled, ot)], Seq::empty()));
                }
                return Err(e);
            },
            Ok(_) => {},
        }
        let mut commands = queued;
        let ghost mut states: Seq<(Seq<Feed<P>>, Seq<Seq<char>>)> = seq![(polled, ot)];
        let ghost mut outs: Seq<Result<FeedGroupWorkerCommandAck<P>, P::Error>> = Seq::empty();
        proof {
            assert(acks@.subrange(0, base.len() as int) =~= base);
        }
        while commands.len() > 0
            invariant
                self.wf(),
                ring.wf(),
                !ring.is_in_flight(),
                ring.capacity() == old(ring).capacity(),
                ring.head_seq() <= old(ring).head_seq() + old(self).feeds_view().len(),
                record_views(ring.history()) == record_views(oh) + accepted(last_polls(polled.subrange(0, m))),
                oh == old(ring).history(),
                ot == old(self).target_view(),
                base == old(acks)@,
                cmds == queued@,
                polled_upto(of, polled, m),
                m == of.len(),
                of == old(self).feeds_view(),
                cmds.len() == outs.len() + commands@.len(),
                commands@ == cmds.subrange(outs.len() as int, cmds.len() as int),
                applied_in_order(states, cmds, outs),
                states[0] == (polled, ot),
                states.last() == (self.feeds@, self.target@),
                acks@.len() == base.len() + outs.len(),
                acks@.subrange(0, base.len() as int) == base,
                forall|j: int| 0 <= j < outs.len() ==> #[trigger] outs[j] == Ok::<_, P::Error>(acks@[base.len() + j]),
            decreases commands.len(),
        {
            let cmd = commands.remove(0);
            proof {
                assert(cmd == cmds[outs.len() as int]);
                assert(commands@ =~= cmds.subrange(outs.len() as int + 1, cmds.len() as int));
            }
            let ghost before_feeds = self.feeds@;
            let ghost before_target = self.target@;
            let res = self.apply(cmd);
            let ghost res_g = res;
            proof {
                let states2 = states.push((self.feeds@, self.target@));
                let outs2 = outs.push(res_g);
                assert forall|j: int| 0 <= j < outs2.len() implies applied(
                    states2[j].0,
                    states2[j].1,
                    cmds[j],
                    states2[j + 1].0,
                    states2[j + 1].1,
                    outs2[j],
                ) by {
                    if j < outs.len() {
                        assert(states2[j] == states[j]);
                        assert(states2[j + 1] == states[j + 1]);
                    }
                }
                states = states2;
                outs = outs2;
            }
            match res {
                Err(e) => {
                    proof {
                        assert(acks@.subrange(0, base.len() as int) =~= base);
                        let na = acks@.subrange(base.len() as int, acks@.len() as int);
                        assert forall|j: int| 0 <= j < na.len() implies #[trigger] outs[j] == Ok::<_, P::Error>(na[j]) by {
                            assert(outs[j] == Ok::<_, P::Error>(acks@[base.len() + j]));
                        }
                        assert(round_trace(of, ot, oh, cmds, self.feeds@, self.target@, ring.history(), na,
                            Err::<(), P::Error>(e), polled, m, states, outs));
                    }
                    return Err(e);
                },
                Ok(ack) => {
                    let ghost before_acks = acks@;
                    acks.push(ack);
                    proof {
                        assert(acks@.subrange(0, base.len() as int) =~= base);
                        assert forall|j: int| 0 <= j < outs.len() implies #[trigger] outs[j] == Ok::<_, P::Error>(
                            acks@[base.len() + j],
                        ) by {
                            if j < outs.len() - 1 {
                                assert(acks@[base.len() + j] == before_acks[base.len() + j]);
                            }
                        }
                    }
                },
            }
        }
        proof {
            let na = acks@.subrange(base.len() as int, acks@.len() as int);
            assert forall|j: int| 0 <= j < na.len() implies #[trigger] outs[j] == Ok::<_, P::Error>(na[j]) by {
                assert(outs[j] == Ok::<_, P::Error>(acks@[base.len() + j]));
            }
            assert(round_trace(old(self).feeds_view(), old(self).target_view(), old(ring).history(), queued@,
                self.feeds_view(), self.target_view(), ring.history(),
                acks@.subrange(old(acks)@.len() as int, acks@.len() as int), Ok::<(), P::Error>(()), polled, m, states,
                outs));
        }
        Ok(())
    }

    /// Reconciles every feed to the target set, first feed first; stops at
    /// the first send that fails.
    fn reconcile_all(&mut self) -> (r: Result<(), P::Error>)
        requires
            old(self).wf(),
        ensures
            final(self).wf(),
            final(self).target_view() == old(self).target_view(),
            feed_names(final(self).feeds_view()) == feed_names(old(self).feeds_view()),
            r is Ok ==> forall|k: int| 0 <= k < final(self).feeds_view().len()
                ==> #[trigger] final(self).feeds_view()[k].stream_view() == final(self).target_view(),
            no_frames_needed(old(self).feeds_view(), old(self).target_view()) ==> r is Ok,
    {
        let n = self.feeds.len();
        let ghost names = feed_names(self.feeds@);
        let mut i: usize = 0;
        while i < n
            invariant
                n == self.feeds@.len(),
                0 <= i <= n,
                self.wf(),
                self.target@ == old(self).target@,
                feed_names(self.feeds@) == names,
                names == feed_names(old(self).feeds@),
                forall|k: int| 0 <= k < i ==> #[trigger] self.feeds@[k].stream_view() == self.target@,
                forall|k: int| i <= k < n ==> self.feeds@[k] == old(self).feeds@[k],
            decreases n - i,
        {
            let mut feed = self.feeds.remove(i);
            proof {
                assert(feed == old(self).feeds@[i as int]);
            }
            let r = feed.update(&self.target);
            self.feeds.insert(i, feed);
            proof {
                assert(feed_names(self.feeds@) =~= names);
                if no_frames_needed(old(self).feeds@, old(self).target@) {
                    assert(!unsubscribe_needed(old(self).feeds@[i as int].stream_view(), old(self).target@));
                }
            }
            match r {
                Err(e) => {
                    return Err(e);
                },
                Ok(()) => {},
            }
            i = i + 1;
        }
        Ok(())
    }

    /// Applies one command and returns its acknowledgement. `AddFeed`
    /// replaces the feed of the same name and hands back the previous one;
    /// `RemoveFeed` hands back the removed feed; `AddStream` tells whether the
    /// stream was new; `RemoveStream` hands back the removed stream. After a
    /// stream command every feed is reconciled to the target set; a failed
    /// send is returned instead of an acknowledgement.
    pub fn apply(&mut self, cmd: FeedGroupWorkerCommand<P>) -> (r: Result<FeedGroupWorkerCommandAck<P>, P::Error>)
        requires
            old(self).wf(),
        ensures
            final(self).wf(),
            applied(old(self).feeds_view(), old(self).target_view(), cmd, final(self).feeds_view(), final(self).target_view(), r),
    {
        match cmd {
            FeedGroupWorkerCommand::AddFeed(f) => {
                match self.position(f.name()) {
                    Some(k) => {
                        let previous = self.feeds.remove(k);
                        self.feeds.insert(k, f);
                        proof {
                            assert(self.feeds@ =~= old(self).feeds@.update(k as int, f));
                        }
                        Ok(FeedGroupWorkerCommandAck::AddFeed(Some(previous)))
                    },
                    None => {
                        self.feeds.push(f);
                        Ok(FeedGroupWorkerCommandAck::AddFeed(None))
                    },
                }
            },
            FeedGroupWorkerCommand::RemoveFeed(name) => {
                match self.position(name.as_str()) {
                    Some(k) => {
                        let removed = self.feeds.remove(k);
                        Ok(FeedGroupWorkerCommandAck::RemoveFeed(Some(removed)))
                    },
                    None => Ok(FeedGroupWorkerCommandAck::RemoveFeed(None)),
                }
            },
            FeedGroupWorkerCommand::AddStream(s) => {
                let added = self.target.insert(s.as_str());
                match self.reconcile_all() {
                    Err(e) => Err(e),
                    Ok(()) => Ok(FeedGroupWorkerCommandAck::AddStream(added)),
                }
            },
            FeedGroupWorkerCommand::RemoveStream(s) => {
                let removed = self.target.remove(s.as_str());
                match self.reconcile_all() {
                    Err(e) => Err(e),
                    Ok(()) => Ok(FeedGroupWorkerCommandAck::RemoveStream(removed)),
                }
            },
        }
    }
}

/// Why a feed group could not be built.
#[derive(Debug, PartialEq, Eq, Structural)]
pub enum FeedGroupError {
    NoFeeds,
    NoWorkers,
    ZeroCommandCapacity,
    ZeroFeedbackCapacity,
}

/// What a feed group is built from.
pub struct FeedGroupConfig<P: FeedTransport> {
    pub name: String,
    /// The cores the workers run on, one worker per core.
    pub worker_lcore_ids: Vec<u32>,
    pub feeds: Vec<Feed<P>>,
    /// The streams the feeds should carry.
    pub streams: StreamSet,
    pub command_channel_capacity: usize,
    pub feedback_channel_capacity: usize,
}

/// A validated feed group, not yet running.
pub struct FeedGroup<P: FeedTransport> {
    pub name: String,
    pub worker_lcore_ids: Vec<u32>,
    pub feeds: Vec<Feed<P>>,
    pub streams: StreamSet,
    pub command_channel_capacity: usize,
    pub feedback_channel_capacity: usize,
}

/// The first problem of a group configuration, if any.
pub open spec fn group_config_issue<P: FeedTransport>(c: FeedGroupConfig<P>) -> Option<FeedGroupError> {
    if c.feeds@.len() == 0 {
        Some(FeedGroupError::NoFeeds)
    } else if c.worker_lcore_ids@.len() == 0 {
        Some(FeedGroupError::NoWorkers)
    } else if c.command_channel_capacity == 0 {
        Some(FeedGroupError::ZeroCommandCapacity)
    } else if c.feedback_channel_capacity == 0 {
        Some(FeedGroupError::ZeroFeedbackCapacity)
    } else {
        None
    }
}

/// The feeds that worker `w` of `n` gets: every `n`-th one, starting at `w`,
/// in order.
pub open spec fn bucket<P: FeedTransport>(fs: Seq<Feed<P>>, n: int, w: int) -> Seq<Feed<P>>
    decreases fs.len(),
{
    if fs.len() == 0 {
        Seq::empty()
    } else if (fs.len() - 1) % n == w {
        bucket(fs.drop_last(), n, w).push(fs.last())
    } else {
        bucket(fs.drop_last(), n, w)
    }
}

/// The worker, out of `n_workers`, that each of `n_feeds` feeds goes to:
/// one feed per worker while they last, then round-robin.
pub fn assign_feeds(n_feeds: usize, n_workers: usize) -> (r: Vec<usize>)
    requires
        n_workers > 0,
    ensures
        r@.len() == n_feeds,
        forall|k: int| 0 <= k < n_feeds ==> #[trigger] r@[k] == k % (n_workers as int),
{
    let mut r: Vec<usize> = Vec::new();
    let mut k: usize = 0;
    while k < n_feeds
        invariant
            n_workers > 0,
            0 <= k <= n_feeds,
            r@.len() == k,
            forall|j: int| 0 <= j < k ==> #[trigger] r@[j] == j % (n_workers as int),
        decreases n_feeds - k,
    {
        r.push(k % n_workers);
        k = k + 1;
    }
    r
}

impl<P: FeedTransport> FeedGroup<P> {
    /// Validates a configuration: there must be feeds and workers, and both
    /// channel capacities must be positive.
    pub fn validated_build(config: FeedGroupConfig<P>) -> (r: Result<FeedGroup<P>, FeedGroupError>)
        ensures
            match group_config_issue(config) {
                Some(e) => r == Err::<FeedGroup<P>, _>(e),
                None => r is Ok && r->Ok_0.feeds@ == config.feeds@ && r->Ok_0.worker_lcore_ids@ == config.worker_lcore_ids@
                    && r->Ok_0.streams@ == config.streams@ && r->Ok_0.name@ == config.name@
                    && r->Ok_0.command_channel_capacity == config.command_channel_capacity
                    && r->Ok_0.feedback_channel_capacity == config.feedback_channel_capacity,
            },
    {
        if config.feeds.len() == 0 {
            return Err(FeedGroupError::NoFeeds);
        }
        if config.worker_lcore_ids.len() == 0 {
            return Err(FeedGroupError::NoWorkers);
        }
        if config.command_channel_capacity == 0 {
            return Err(FeedGroupError::ZeroCommandCapacity);
        }
        if config.feedback_channel_capacity == 0 {
            return Err(FeedGroupError::ZeroFeedbackCapacity);
        }
        Ok(FeedGroup {
            name: config.name,
            worker_lcore_ids: config.worker_lcore_ids,
            feeds: config.feeds,
            streams: config.streams,
            command_channel_capacity: config.command_channel_capacity,
            feedback_channel_capacity: config.feedback_channel_capacity,
        })
    }

    /// The cores the workers run on.
    pub fn lcore_ids(&self) -> (r: &Vec<u32>)
        ensures
            r@ == self.worker_lcore_ids@,
    {
        &self.worker_lcore_ids
    }

    /// Splits the group into one worker per core: feed `k` goes to worker
    /// `k mod workers`, and every worker aims at the group's streams.
    pub fn into_workers(self) -> (r: Vec<Worker<P>>)
        requires
            self.worker_lcore_ids@.len() > 0,
            self.streams.wf(),
        ensures
            r@.len() == self.worker_lcore_ids@.len(),
            forall|w: int| 0 <= w < r@.len() ==> {
                &&& (#[trigger] r@[w]).feeds_view() == bucket(self.feeds@, r@.len() as int, w)
                &&& r@[w].target_view() == self.streams@
                &&& r@[w].wf()
            },
    {
        let n = self.worker_lcore_ids.len();
        let ghost all = self.feeds@;
        let mut buckets: Vec<Vec<Feed<P>>> = Vec::new();
        let mut w: usize = 0;
        while w < n
            invariant
                0 <= w <= n,
                buckets@.len() == w,
                forall|j: int| 0 <= j < w ==> (#[trigger] buckets@[j])@ == Seq::<Feed<P>>::empty(),
            decreases n - w,
        {
            buckets.push(Vec::new());
            w = w + 1;
        }
        let mut feeds = self.feeds;
        assert(all.len() == feeds.len());
        let mut k: usize = 0;
        while feeds.len() > 0
            invariant
                n > 0,
                all.len() <= usize::MAX,
                k + feeds@.len() == all.len(),
                feeds@ == all.subrange(k as int, all.len() as int),
                buckets@.len() == n,
                forall|j: int| 0 <= j < n ==> (#[trigger] buckets@[j])@ == bucket(all.subrange(0, k as int), n as int, j),
            decreases feeds.len(),
        {
            let f = feeds.remove(0);
            let target = k % n;
            let mut b = buckets.remove(target);
            b.push(f);
            buckets.insert(target, b);
            proof {
                let p = all.subrange(0, k + 1);
                assert(p.drop_last() =~= all.subrange(0, k as int));
                assert(p.last() == f);
                assert(feeds@ =~= all.subrange(k + 1, all.len() as int));
                assert forall|j: int| 0 <= j < n implies (#[trigger] buckets@[j])@ == bucket(p, n as int, j) by {
                    if j == target as int {
                        assert((p.len() - 1) % (n as int) == j);
                    }
                }
            }
            k = k + 1;
        }
        proof {
            assert(all.subrange(0, k as int) =~= all);
        }
        let mut workers: Vec<Worker<P>> = Vec::new();
        let mut buckets = buckets;
        let mut w: usize = 0;
        while buckets.len() > 0
            invariant
                w + buckets@.len() == n,
                workers@.len() == w,
                self.streams.wf(),
                forall|j: int| 0 <= j < buckets@.len() ==> (#[trigger] buckets@[j])@ == bucket(all, n as int, j + w),
                forall|j: int| 0 <= j < w ==> {
                    &&& (#[trigger] workers@[j]).feeds_view() == bucket(all, n as int, j)
                    &&& workers@[j].target_view() == self.streams@
                    &&& workers@[j].wf()
                },
            decreases buckets.len(),
        {
            let b = buckets.remove(0);
            let target = self.streams.duplicate();
            workers.push(Worker::new(b, target));
            w = w + 1;
        }
        workers
    }
}

/// Turns one payload into a record and publishes it; a payload the parser
/// refuses is dropped and the ring is left as it was.
pub fn handle_payload(ring: &mut PubSubRing, parser: &mut DummyParser, raw: &[u8]) -> (published: bool)
    requires
        old(ring).wf(),
        !old(ring).is_in_flight(),
        old(ring).head_seq() < u64::MAX,
    ensures
        final(ring).wf(),
        !final(ring).is_in_flight(),
        published <==> vstd::utf8::valid_utf8(raw@) && raw@.len() <= RAW_MESSAGE_SIZE,
        final(ring).capacity() == old(ring).capacity(),
        published ==> final(ring).history() == old(ring).history().push(final(ring).history().last())
            && final(ring).history().last()@ == padded(raw@) && final(ring).head_seq() == old(ring).head_seq() + 1,
        !published ==> *final(ring) == *old(ring),
{
    let mut record = RawMessage::zeroed();
    match parser.parse(raw, &mut record) {
        Err(_) => false,
        Ok(()) => {
            ring.publish(record);
            true
        },
    }
}

impl<P: FeedTransport> FeedGroupWorkerCommandAck<P> {
    pub open spec fn spec_summary(&self) -> Seq<char> {
        match self {
            FeedGroupWorkerCommandAck::AddFeed(Some(_)) => "AddFeed: replaced existing feed"@,
            FeedGroupWorkerCommandAck::AddFeed(None) => "AddFeed: new feed added"@,
            FeedGroupWorkerCommandAck::RemoveFeed(Some(_)) => "RemoveFeed: feed removed"@,
            FeedGroupWorkerCommandAck::RemoveFeed(None) => "RemoveFeed: feed not found"@,
            FeedGroupWorkerCommandAck::AddStream(true) => "AddStream: newly added"@,
            FeedGroupWorkerCommandAck::AddStream(false) => "AddStream: already existed"@,
            FeedGroupWorkerCommandAck::RemoveStream(Some(_)) => "RemoveStream: stream removed"@,
            FeedGroupWorkerCommandAck::RemoveStream(None) => "RemoveStream: stream not found"@,
        }
    }

    /// A one-line description of the acknowledgement, for the operator.
    pub fn summary(&self) -> (r: &'static str)
        ensures
            r@ == self.spec_summary(),
    {
        match self {
            FeedGroupWorkerCommandAck::AddFeed(Some(_)) => "AddFeed: replaced existing feed",
            FeedGroupWorkerCommandAck::AddFeed(None) => "AddFeed: new feed added",
            FeedGroupWorkerCommandAck::RemoveFeed(Some(_)) => "RemoveFeed: feed removed",
            FeedGroupWorkerCommandAck::RemoveFeed(None) => "RemoveFeed: feed not found",
            FeedGroupWorkerCommandAck::AddStream(true) => "AddStream: newly added",
            FeedGroupWorkerCommandAck::AddStream(false) => "AddStream: already existed",
            FeedGroupWorkerCommandAck::RemoveStream(Some(_)) => "RemoveStream: stream removed",
            FeedGroupWorkerCommandAck::RemoveStream(None) => "RemoveStream: stream not found",
        }
    }
}

/// Payload round trip: once `handle_payload` has published a payload, a
/// consumer attached before it reads it back with `Success`, as the payload's
/// bytes followed by zeros.
pub proof fn lemma_payload_round_trip(before: PubSubRing, after: PubSubRing, raw: Seq<u8>, cursor: int)
    requires
        before.wf(),
        after.wf(),
        !after.is_in_flight(),
        cursor == before.head_seq(),
        after.capacity() == before.capacity(),
        after.head_seq() == before.head_seq() + 1,
        after.history() == before.history().push(after.history().last()),
        after.history().last()@ == padded(raw),
    ensures
        after.stamp_at(slot_of(cursor, after.capacity() as int)) == cursor + 1,
        after.record_at(slot_of(cursor, after.capacity() as int))@ == padded(raw),
{
    lemma_publish_then_consume(before, after, after.history().last(), cursor);
}

} // verus!
