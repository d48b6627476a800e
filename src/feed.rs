//! Feeds, their stream sets, and the reconciliation that moves a feed's
//! subscriptions to a desired set with as few frames as possible.

use vstd::prelude::*;
use crate::names::views;
use crate::requests::{array_text, frame_text, json_quoted, quoted_all, WSRequest, WSRequestKind};
use crate::text::same_text;

verus! {

/// The kinds of market data a feed can carry.
#[derive(Debug, Clone, Copy, PartialEq, Eq, Structural)]
pub enum FeedKind {
    /// Best bid and ask.
    Top,
    /// Individual trades.
    Trade,
    /// Trades aggregated per taker order.
    AggTrade,
}

impl FeedKind {
    pub open spec fn spec_topic_suffix(self) -> Seq<char> {
        match self {
            FeedKind::Top => "@bookTicker"@,
            FeedKind::Trade => "@trade"@,
            FeedKind::AggTrade => "@aggTrade"@,
        }
    }

    /// The suffix that turns a symbol into this kind's topic name.
    pub fn topic_suffix(&self) -> (r: &'static str)
        ensures
            r@ == self.spec_topic_suffix(),
    {
        match self {
            FeedKind::Top => "@bookTicker",
            FeedKind::Trade => "@trade",
            FeedKind::AggTrade => "@aggTrade",
        }
    }
}

/// The topic name of `symbol` for a feed kind, e.g. `btcusdt@trade`.
pub open spec fn topic(symbol: Seq<char>, kind: FeedKind) -> Seq<char> {
    symbol + kind.spec_topic_suffix()
}

pub open spec fn topics(symbols: Seq<Seq<char>>, kind: FeedKind) -> Seq<Seq<char>> {
    symbols.map_values(|s: Seq<char>| topic(s, kind))
}

/// Returns the topic name of `symbol` for `kind`.
pub fn topic_name(symbol: &str, kind: FeedKind) -> (r: String)
    ensures
        r@ == topic(symbol@, kind),
{
    let mut r = String::from_str(symbol);
    r.append(kind.topic_suffix());
    r
}

/// A set of stream names, kept in the order they were added.
#[derive(Debug)]
pub struct StreamSet {
    names: Vec<String>,
}

impl View for StreamSet {
    type V = Seq<Seq<char>>;

    closed spec fn view(&self) -> Seq<Seq<char>> {
        views(self.names@)
    }
}

/// The entries of `a` that are not in `b`, in the order of `a`.
pub open spec fn minus(a: Seq<Seq<char>>, b: Seq<Seq<char>>) -> Seq<Seq<char>> {
    a.filter(not_in(b))
}

pub open spec fn not_in(b: Seq<Seq<char>>) -> spec_fn(Seq<char>) -> bool {
    |x: Seq<char>| !b.contains(x)
}

pub open spec fn is_in(b: Seq<Seq<char>>) -> spec_fn(Seq<char>) -> bool {
    |x: Seq<char>| b.contains(x)
}

impl StreamSet {
    /// No name appears twice.
    pub open spec fn wf(&self) -> bool {
        self@.no_duplicates()
    }

    /// An empty set.
    pub fn new() -> (r: StreamSet)
        ensures
            r@ == Seq::<Seq<char>>::empty(),
            r.wf(),
    {
        let r = StreamSet { names: Vec::new() };
        assert(r@ =~= Seq::<Seq<char>>::empty());
        r
    }

    /// Number of streams.
    pub fn len(&self) -> (r: usize)
        ensures
            r == self@.len(),
    {
        self.names.len()
    }

    /// Position of `name`, if present.
    fn position(&self, name: &str) -> (r: Option<usize>)
        ensures
            match r {
                None => !self@.contains(name@),
                Some(k) => k < self@.len() && self@[k as int] == name@,
            },
    {
        let mut i: usize = 0;
        while i < self.names.len()
            invariant
                0 <= i <= self.names.len(),
                forall|k: int| 0 <= k < i ==> self@[k] != name@,
            decreases self.names.len() - i,
        {
            if same_text(self.names[i].as_str(), name) {
                return Some(i);
            }
            i = i + 1;
        }
        None
    }

    /// Tells whether `name` is in the set.
    pub fn contains(&self, name: &str) -> (r: bool)
        ensures
            r == self@.contains(name@),
    {
        self.position(name).is_some()
    }

    /// Adds `name`; returns `true` if it was not there before.
    pub fn insert(&mut self, name: &str) -> (r: bool)
        requires
            old(self).wf(),
        ensures
            final(self).wf(),
            r == !old(self)@.contains(name@),
            r ==> final(self)@ == old(self)@.push(name@),
            !r ==> final(self)@ == old(self)@,
    {
        if self.position(name).is_some() {
            return false;
        }
        self.names.push(String::from_str(name));
        assert(self@ =~= old(self)@.push(name@));
        true
    }

    /// Removes `name`; returns it if it was there.
    pub fn remove(&mut self, name: &str) -> (r: Option<String>)
        requires
            old(self).wf(),
        ensures
            final(self).wf(),
            r is Some <==> old(self)@.contains(name@),
            r is Some ==> r->0@ == name@ && final(self)@ == old(self)@.remove(old(self)@.index_of(name@)),
            r is None ==> final(self)@ == old(self)@,
    {
        match self.position(name) {
            None => None,
            Some(k) => {
                let removed = self.names.remove(k);
                proof {
                    assert(self@ =~= old(self)@.remove(k as int));
                    old(self)@.index_of_first_ensures(name@);
                }
                Some(removed)
            },
        }
    }

    /// The names in `self` that are not in `other`, in the order of `self`.
    pub fn difference(&self, other: &StreamSet) -> (r: Vec<String>)
        ensures
            views(r@) == minus(self@, other@),
    {
        let mut r: Vec<String> = Vec::new();
        let mut i: usize = 0;
        while i < self.names.len()
            invariant
                0 <= i <= self.names.len(),
                views(r@) == minus(self@.subrange(0, i as int), other@),
            decreases self.names.len() - i,
        {
            let ghost before = r@;
            proof {
                assert(self@.subrange(0, i + 1) =~= self@.subrange(0, i as int).push(self@[i as int]));
                self@.subrange(0, i as int).lemma_filter_push(self@[i as int], not_in(other@));
            }
            if !other.contains(self.names[i].as_str()) {
                r.push(self.names[i].clone());
                assert(views(r@) =~= views(before).push(self@[i as int]));
            }
            i = i + 1;
        }
        assert(self@.subrange(0, i as int) =~= self@);
        r
    }

    /// A copy of the set.
    pub fn duplicate(&self) -> (r: StreamSet)
        ensures
            r@ == self@,
    {
        let mut names: Vec<String> = Vec::new();
        let mut i: usize = 0;
        while i < self.names.len()
            invariant
                0 <= i <= self.names.len(),
                names@.len() == i,
                forall|k: int| 0 <= k < i ==> #[trigger] names@[k]@ == self.names@[k]@,
            decreases self.names.len() - i,
        {
            names.push(self.names[i].clone());
            i = i + 1;
        }
        let r = StreamSet { names };
        assert(r@ =~= self@);
        r
    }
}

/// The streams of `a` that are also in `b`, in the order of `a`.
pub open spec fn common(a: Seq<Seq<char>>, b: Seq<Seq<char>>) -> Seq<Seq<char>> {
    a.filter(is_in(b))
}

impl StreamSet {
    /// The streams of `self` that are also in `other`, in the order of `self`.
    pub fn intersection(&self, other: &StreamSet) -> (r: StreamSet)
        ensures
            r@ == common(self@, other@),
    {
        let mut names: Vec<String> = Vec::new();
        let mut i: usize = 0;
        while i < self.names.len()
            invariant
                0 <= i <= self.names.len(),
                views(names@) == common(self@.subrange(0, i as int), other@),
            decreases self.names.len() - i,
        {
            let ghost before = names@;
            proof {
                assert(self@.subrange(0, i + 1) =~= self@.subrange(0, i as int).push(self@[i as int]));
                self@.subrange(0, i as int).lemma_filter_push(self@[i as int], is_in(other@));
            }
            if other.contains(self.names[i].as_str()) {
                names.push(self.names[i].clone());
                assert(views(names@) =~= views(before).push(self@[i as int]));
            }
            i = i + 1;
        }
        assert(self@.subrange(0, i as int) =~= self@);
        StreamSet { names }
    }
}

/// Turns symbols into topic names of a feed kind.
fn topic_names(symbols: &Vec<String>, kind: FeedKind) -> (r: Vec<String>)
    ensures
        views(r@) == topics(views(symbols@), kind),
{
    let mut r: Vec<String> = Vec::new();
    let mut i: usize = 0;
    while i < symbols.len()
        invariant
            0 <= i <= symbols.len(),
            r@.len() == i,
            forall|k: int| 0 <= k < i ==> #[trigger] r@[k]@ == topic(symbols@[k]@, kind),
        decreases symbols.len() - i,
    {
        r.push(topic_name(symbols[i].as_str(), kind));
        i = i + 1;
    }
    assert(views(r@) =~= topics(views(symbols@), kind));
    r
}

/// The unsubscribe request for the streams to drop, if any.
pub open spec fn unsubscribe_needed(current: Seq<Seq<char>>, target: Seq<Seq<char>>) -> bool {
    minus(current, target).len() > 0
}

/// The subscribe request for the streams to add, if any.
pub open spec fn subscribe_needed(current: Seq<Seq<char>>, target: Seq<Seq<char>>) -> bool {
    minus(target, current).len() > 0
}

/// `req` is a request without id of method `unsubscribe` (or `subscribe`)
/// whose parameters are `params`.
pub open spec fn is_request(req: WSRequest, unsubscribe: bool, params: Seq<Seq<char>>) -> bool {
    &&& req.id is None
    &&& if unsubscribe {
        req.kind is Unsubscribe && views(req.kind->Unsubscribe_0@) == params
    } else {
        req.kind is Subscribe && views(req.kind->Subscribe_0@) == params
    }
}

/// The requests that move a feed of `kind` from the streams `current` to the
/// streams `target`: an unsubscribe request listing the topics of the
/// streams to drop, if any, then a subscribe request listing the topics of
/// the streams to add, if any.
pub fn reconcile(current: &StreamSet, target: &StreamSet, kind: FeedKind) -> (r: Vec<WSRequest>)
    ensures
        r@.len() == (if unsubscribe_needed(current@, target@) { 1int } else { 0int })
            + (if subscribe_needed(current@, target@) { 1int } else { 0int }),
        unsubscribe_needed(current@, target@) ==> is_request(r@[0], true, topics(minus(current@, target@), kind)),
        subscribe_needed(current@, target@) ==> is_request(r@[r@.len() - 1], false, topics(minus(target@, current@), kind)),
{
    let mut r: Vec<WSRequest> = Vec::new();
    let gone = current.difference(target);
    if gone.len() > 0 {
        let names = topic_names(&gone, kind);
        r.push(WSRequest { kind: WSRequestKind::Unsubscribe(names), id: None });
    }
    let ghost first = r@;
    let new = target.difference(current);
    if new.len() > 0 {
        let names = topic_names(&new, kind);
        r.push(WSRequest { kind: WSRequestKind::Subscribe(names), id: None });
        assert(r@[r@.len() - 1] == WSRequest { kind: WSRequestKind::Subscribe(names), id: None });
    }
    r
}

/// The text of a control request without id: `{"method":M,"params":[...],"id":null}`.
pub open spec fn control_text(unsubscribe: bool, params: Seq<Seq<char>>) -> Seq<char> {
    "{\"method\":\""@ + (if unsubscribe { "UNSUBSCRIBE"@ } else { "SUBSCRIBE"@ }) + "\""@ + ",\"params\":"@
        + array_text(params.map_values(|p: Seq<char>| json_quoted(p))) + ",\"id\":"@ + "null"@ + "}"@
}

/// The texts of the frames that move a feed of `kind` from `current` to
/// `target`, in the order they are sent.
pub open spec fn planned_frames(current: Seq<Seq<char>>, target: Seq<Seq<char>>, kind: FeedKind) -> Seq<Seq<char>> {
    (if unsubscribe_needed(current, target) {
        seq![control_text(true, topics(minus(current, target), kind))]
    } else {
        Seq::empty()
    }) + (if subscribe_needed(current, target) {
        seq![control_text(false, topics(minus(target, current), kind))]
    } else {
        Seq::empty()
    })
}

/// The text of a request without id is its `control_text`.
proof fn lemma_request_text(req: WSRequest, unsubscribe: bool, params: Seq<Seq<char>>)
    requires
        is_request(req, unsubscribe, params),
    ensures
        frame_text(req) == control_text(unsubscribe, params),
{
    let v = if unsubscribe { req.kind->Unsubscribe_0@ } else { req.kind->Subscribe_0@ };
    assert(quoted_all(v) =~= params.map_values(|p: Seq<char>| json_quoted(p))) by {
        assert forall|i: int| 0 <= i < v.len() implies quoted_all(v)[i] == json_quoted(params[i]) by {
            assert(views(v)[i] == v[i]@);
        }
    }
}

/// The texts of `reconcile`'s requests are the planned frames.
proof fn lemma_planned_frames(frames: Seq<WSRequest>, current: Seq<Seq<char>>, target: Seq<Seq<char>>, kind: FeedKind)
    requires
        frames.len() == (if unsubscribe_needed(current, target) { 1int } else { 0int })
            + (if subscribe_needed(current, target) { 1int } else { 0int }),
        unsubscribe_needed(current, target) ==> is_request(frames[0], true, topics(minus(current, target), kind)),
        subscribe_needed(current, target) ==> is_request(frames[frames.len() - 1], false, topics(minus(target, current), kind)),
    ensures
        frames.len() == planned_frames(current, target, kind).len(),
        forall|i: int| 0 <= i < frames.len() ==> frame_text(#[trigger] frames[i]) == planned_frames(current, target, kind)[i],
        frames.len() > 0 ==> (frames[0].kind is Unsubscribe <==> unsubscribe_needed(current, target)),
{
    if unsubscribe_needed(current, target) {
        lemma_request_text(frames[0], true, topics(minus(current, target), kind));
    }
    if subscribe_needed(current, target) {
        lemma_request_text(frames[frames.len() - 1], false, topics(minus(target, current), kind));
    }
}

/// A feed's connection: control frames go out, payloads come in.
pub trait FeedTransport {
    type Error;

    /// Sends one text frame.
    fn send(&mut self, frame: &str) -> Result<(), Self::Error>;

    /// Returns the next payload without waiting, or `None` when there is
    /// none yet.
    fn poll(&mut self) -> Result<Option<Vec<u8>>, Self::Error>;
}

/// One connection carrying one feed kind, with the streams it is subscribed
/// to.
pub struct Feed<P: FeedTransport> {
    pub name: String,
    pub kind: FeedKind,
    pub transport: P,
    streams: StreamSet,
    /// Every frame handed to the transport, with what the transport answered.
    sent: Ghost<Seq<(Seq<char>, Result<(), P::Error>)>>,
    /// What every successful poll of the transport gave.
    received: Ghost<Seq<Option<Seq<u8>>>>,
}

/// What a successful poll gave, as bytes.
pub open spec fn payload_view(p: Option<Vec<u8>>) -> Option<Seq<u8>> {
    match p {
        Some(v) => Some(v@),
        None => None,
    }
}

impl<P: FeedTransport> Feed<P> {
    /// The streams the feed is subscribed to.
    pub closed spec fn stream_view(&self) -> Seq<Seq<char>> {
        self.streams@
    }

    pub closed spec fn name_view(&self) -> Seq<char> {
        self.name@
    }

    pub closed spec fn kind_of(&self) -> FeedKind {
        self.kind
    }

    pub closed spec fn transport_of(&self) -> P {
        self.transport
    }

    /// Every frame the feed has handed to its transport, in order, each with
    /// the transport's answer.
    pub closed spec fn sent_log(&self) -> Seq<(Seq<char>, Result<(), P::Error>)> {
        self.sent@
    }

    /// What every successful poll of the feed's transport gave, in order.
    pub closed spec fn received_log(&self) -> Seq<Option<Seq<u8>>> {
        self.received@
    }

    /// The feed's name.
    pub fn name(&self) -> (r: &str)
        ensures
            r@ == self.name_view(),
    {
        self.name.as_str()
    }

    /// A feed with no subscriptions yet.
    pub fn new(name: &str, kind: FeedKind, transport: P) -> (r: Feed<P>)
        ensures
            r.name_view() == name@,
            r.kind_of() == kind,
            r.transport_of() == transport,
            r.stream_view() == Seq::<Seq<char>>::empty(),
            r.sent_log().len() == 0,
            r.received_log().len() == 0,
    {
        Feed {
            name: String::from_str(name),
            kind,
            transport,
            streams: StreamSet::new(),
            sent: Ghost(Seq::empty()),
            received: Ghost(Seq::empty()),
        }
    }

    /// The streams the feed is subscribed to.
    pub fn streams(&self) -> (r: &StreamSet)
        ensures
            r@ == self.stream_view(),
    {
        &self.streams
    }

    /// Polls the feed's connection once, without waiting.
    pub fn poll(&mut self) -> (r: Result<Option<Vec<u8>>, P::Error>)
        ensures
            final(self).name_view() == old(self).name_view(),
            final(self).kind_of() == old(self).kind_of(),
            final(self).stream_view() == old(self).stream_view(),
            final(self).sent_log() == old(self).sent_log(),
            r is Ok ==> final(self).received_log() == old(self).received_log().push(payload_view(r->Ok_0)),
            r is Err ==> final(self).received_log() == old(self).received_log(),
    {
        let r = self.transport.poll();
        proof {
            if r is Ok {
                self.received@ = self.received@.push(payload_view(r->Ok_0));
            }
        }
        r
    }

    /// Moves the feed's subscriptions to `target`: sends the frames that
    /// `reconcile` gives, unsubscribe first, and records each change once its
    /// frame is sent. The first failed send ends the update: its error is
    /// returned as it is, and no frame follows it.
    pub fn update(&mut self, target: &StreamSet) -> (r: Result<(), P::Error>)
        ensures
            final(self).name_view() == old(self).name_view(),
            final(self).kind_of() == old(self).kind_of(),
            final(self).received_log() == old(self).received_log(),
            ({
                let planned = planned_frames(old(self).stream_view(), target@, old(self).kind_of());
                let before = old(self).sent_log();
                let after = final(self).sent_log();
                let new = after.subrange(before.len() as int, after.len() as int);
                &&& before.len() <= after.len()
                &&& after.subrange(0, before.len() as int) == before
                &&& new.len() <= planned.len()
                &&& forall|i: int| 0 <= i < new.len() ==> (#[trigger] new[i]).0 == planned[i]
                &&& forall|i: int| 0 <= i < new.len() - 1 ==> (#[trigger] new[i]).1 is Ok
                &&& r is Ok <==> new.len() == planned.len() && forall|i: int| 0 <= i < new.len() ==> (#[trigger] new[i]).1 is Ok
                &&& r is Err ==> new.len() > 0 && new[new.len() - 1].1 == r
            }),
            r is Ok ==> final(self).stream_view() == target@,
            r is Err ==> final(self).stream_view() == old(self).stream_view() || final(self).stream_view()
                == common(old(self).stream_view(), target@),
            !unsubscribe_needed(old(self).stream_view(), target@) && !subscribe_needed(old(self).stream_view(), target@)
                ==> r is Ok && final(self).transport_of() == old(self).transport_of(),
    {
        let ghost before = self.sent@;
        let ghost planned = planned_frames(self.streams@, target@, self.kind);
        let frames = reconcile(&self.streams, target, self.kind);
        proof {
            lemma_planned_frames(frames@, self.streams@, target@, self.kind);
        }
        let mut i: usize = 0;
        if unsubscribe_first(&frames) {
            let text = frames[0].to_json();
            let res = self.transport.send(text.as_str());
            proof {
                self.sent@ = self.sent@.push((text@, res));
                assert(self.sent@.subrange(before.len() as int, self.sent@.len() as int) =~= seq![(text@, res)]);
                assert(self.sent@.subrange(0, before.len() as int) =~= before);
            }
            match res {
                Err(e) => {
                    return Err(e);
                },
                Ok(()) => {},
            }
            self.streams = self.streams.intersection(target);
            i = 1;
        }
        let ghost mid = self.sent@;
        if i < frames.len() {
            let text = frames[i].to_json();
            let res = self.transport.send(text.as_str());
            proof {
                self.sent@ = self.sent@.push((text@, res));
                assert(self.sent@.subrange(before.len() as int, self.sent@.len() as int) =~= mid.subrange(
                    before.len() as int,
                    mid.len() as int,
                ).push((text@, res)));
                assert(self.sent@.subrange(0, before.len() as int) =~= before);
            }
            match res {
                Err(e) => {
                    return Err(e);
                },
                Ok(()) => {},
            }
        }
        proof {
            assert(self.sent@.subrange(0, before.len() as int) =~= before);
        }
        self.streams = target.duplicate();
        Ok(())
    }
}

/// The first request of a reconciliation is an unsubscribe request.
fn unsubscribe_first(frames: &Vec<WSRequest>) -> (r: bool)
    ensures
        r == (frames@.len() > 0 && frames@[0].kind is Unsubscribe),
{
    frames.len() > 0 && match &frames[0].kind {
        WSRequestKind::Unsubscribe(_) => true,
        _ => false,
    }
}

/// Reconciling a stream set against one with the same streams, in any
/// order, needs no frame at all.
pub proof fn lemma_reconcile_idempotent(current: Seq<Seq<char>>, target: Seq<Seq<char>>)
    requires
        forall|x: Seq<char>| current.contains(x) <==> target.contains(x),
    ensures
        !unsubscribe_needed(current, target),
        !subscribe_needed(current, target),
{
    current.filter_lemma(not_in(target));
    target.filter_lemma(not_in(current));
    if minus(current, target).len() > 0 {
        let x = minus(current, target)[0];
        assert(minus(current, target).contains(x));
        current.lemma_filter_contains_rev(not_in(target), x);
    }
    if minus(target, current).len() > 0 {
        let x = minus(target, current)[0];
        assert(minus(target, current).contains(x));
        target.lemma_filter_contains_rev(not_in(current), x);
    }
}

/// Filtering keeps a sequence free of duplicates.
proof fn lemma_filter_distinct(s: Seq<Seq<char>>, p: spec_fn(Seq<char>) -> bool)
    requires
        s.no_duplicates(),
    ensures
        s.filter(p).no_duplicates(),
    decreases s.len(),
{
    if s.len() > 0 {
        let d = s.drop_last();
        assert(d.no_duplicates());
        lemma_filter_distinct(d, p);
        assert(d.push(s.last()) =~= s);
        d.lemma_filter_push(s.last(), p);
        if p(s.last()) && d.filter(p).contains(s.last()) {
            d.lemma_filter_contains_rev(p, s.last());
            let k = choose|k: int| 0 <= k < d.len() && d[k] == s.last();
            assert(s[k] == s[s.len() - 1]);
        }
    }
}

/// The parameters of a reconciliation frame: for the streams of `a` that are
/// not in `b`, each one's topic, each once, and nothing else. With `a` the
/// current streams and `b` the target these are the unsubscribe parameters;
/// the other way round, the subscribe parameters.
pub proof fn lemma_diff_topics(a: Seq<Seq<char>>, b: Seq<Seq<char>>, kind: FeedKind)
    requires
        a.no_duplicates(),
    ensures
        topics(minus(a, b), kind).no_duplicates(),
        forall|x: Seq<char>| topics(minus(a, b), kind).contains(x) <==> exists|s: Seq<char>| a.contains(s)
            && !b.contains(s) && x == topic(s, kind),
{
    let d = minus(a, b);
    let t = topics(d, kind);
    lemma_filter_distinct(a, not_in(b));
    a.filter_lemma(not_in(b));
    assert forall|i: int, j: int| 0 <= i < j < t.len() implies t[i] != t[j] by {
        let suffix = kind.spec_topic_suffix();
        assert(t[i] == d[i] + suffix);
        assert(t[j] == d[j] + suffix);
        if t[i] == t[j] {
            assert(d[i].len() == d[j].len());
            assert((d[i] + suffix).subrange(0, d[i].len() as int) =~= d[i]);
            assert((d[j] + suffix).subrange(0, d[j].len() as int) =~= d[j]);
            assert(d[i] == d[j]);
        }
    }
    assert forall|x: Seq<char>| t.contains(x) <==> exists|s: Seq<char>| a.contains(s) && !b.contains(s) && x == topic(s, kind) by {
        if t.contains(x) {
            let i = choose|i: int| 0 <= i < t.len() && t[i] == x;
            assert(d.contains(d[i]));
            a.lemma_filter_contains_rev(not_in(b), d[i]);
            assert(not_in(b)(d[i]));
            assert(a.contains(d[i]) && !b.contains(d[i]) && x == topic(d[i], kind));
        }
        if exists|s: Seq<char>| a.contains(s) && !b.contains(s) && x == topic(s, kind) {
            let s = choose|s: Seq<char>| a.contains(s) && !b.contains(s) && x == topic(s, kind);
            let k = choose|k: int| 0 <= k < a.len() && a[k] == s;
            assert(d.contains(a[k]));
            let i = choose|i: int| 0 <= i < d.len() && d[i] == s;
            assert(t[i] == x);
        }
    }
}

} // verus!
