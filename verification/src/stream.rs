//! Streams of timestamped log lines under a set of labels, and the chainable
//! builder that assembles them.

use vstd::prelude::*;

use crate::ClockError;
use crate::assoc::{assoc_map, assoc_set, find_key_idx, key_present, lemma_assoc_set,
    lemma_remove_key_at, lemma_remove_key_none, remove_key, unique_keys};
use crate::clock;

verus! {

/// The mathematical content of a [`Stream`] (and of the stream a [`Builder`]
/// has assembled so far): the label pairs in storage order and the entries in
/// call order.
pub ghost struct StreamView {
    pub labels: Seq<(Seq<char>, Seq<char>)>,
    pub entries: Seq<(u128, Seq<char>)>,
}

impl StreamView {
    /// The state a fresh builder starts from: no labels, no entries.
    pub open spec fn init() -> StreamView {
        StreamView { labels: Seq::empty(), entries: Seq::empty() }
    }

    /// Well-formed: no label key occurs twice.
    pub open spec fn wf(self) -> bool {
        unique_keys(self.labels)
    }

    /// The label pairs as the mapping they denote.
    pub open spec fn label_map(self) -> Map<Seq<char>, Seq<char>> {
        assoc_map(self.labels)
    }
}

/// One builder call, as data: the argument of `label`, or of `log` with an
/// explicit timestamp.
pub ghost enum BuilderOp {
    Label(Seq<char>, Seq<char>),
    Log(u128, Seq<char>),
}

/// What one builder call does to the assembled stream.
pub open spec fn apply_op(v: StreamView, op: BuilderOp) -> StreamView {
    match op {
        BuilderOp::Label(k, val) => StreamView {
            labels: assoc_set(v.labels, k, val),
            entries: v.entries,
        },
        BuilderOp::Log(t, text) => StreamView {
            labels: v.labels,
            entries: v.entries.push((t, text)),
        },
    }
}

/// What a whole sequence of builder calls assembles, applied in order.
pub open spec fn run_ops(v: StreamView, ops: Seq<BuilderOp>) -> StreamView
    decreases ops.len(),
{
    if ops.len() == 0 {
        v
    } else {
        apply_op(run_ops(v, ops.drop_last()), ops.last())
    }
}

/// The label mapping a sequence of calls denotes: each key carries the value
/// of its last `label` call.
pub open spec fn ops_label_map(ops: Seq<BuilderOp>) -> Map<Seq<char>, Seq<char>>
    decreases ops.len(),
{
    if ops.len() == 0 {
        Map::empty()
    } else {
        match ops.last() {
            BuilderOp::Label(k, val) => ops_label_map(ops.drop_last()).insert(k, val),
            BuilderOp::Log(_, _) => ops_label_map(ops.drop_last()),
        }
    }
}

/// The entries a sequence of calls appends, in call order.
pub open spec fn ops_entries(ops: Seq<BuilderOp>) -> Seq<(u128, Seq<char>)>
    decreases ops.len(),
{
    if ops.len() == 0 {
        Seq::empty()
    } else {
        match ops.last() {
            BuilderOp::Label(_, _) => ops_entries(ops.drop_last()),
            BuilderOp::Log(t, text) => ops_entries(ops.drop_last()).push((t, text)),
        }
    }
}

/// How many of the calls are `log` calls.
pub open spec fn num_logs(ops: Seq<BuilderOp>) -> nat
    decreases ops.len(),
{
    if ops.len() == 0 {
        0
    } else {
        match ops.last() {
            BuilderOp::Label(_, _) => num_logs(ops.drop_last()),
            BuilderOp::Log(_, _) => num_logs(ops.drop_last()) + 1,
        }
    }
}

/// The distinct keys that a sequence of calls labels.
pub open spec fn ops_label_keys(ops: Seq<BuilderOp>) -> Set<Seq<char>>
    decreases ops.len(),
{
    if ops.len() == 0 {
        Set::empty()
    } else {
        match ops.last() {
            BuilderOp::Label(k, _) => ops_label_keys(ops.drop_last()).insert(k),
            BuilderOp::Log(_, _) => ops_label_keys(ops.drop_last()),
        }
    }
}

/// Any sequence of builder calls, run from a fresh builder, assembles a
/// stream whose label mapping holds exactly the distinct labeled keys, each
/// with the value of its last `label` call, and whose entry sequence is the
/// `log` calls' pairs in call order — one entry per `log` call.
pub proof fn lemma_run_ops(ops: Seq<BuilderOp>)
    ensures
        run_ops(StreamView::init(), ops).wf(),
        run_ops(StreamView::init(), ops).label_map() == ops_label_map(ops),
        run_ops(StreamView::init(), ops).label_map().dom() == ops_label_keys(ops),
        run_ops(StreamView::init(), ops).entries == ops_entries(ops),
        run_ops(StreamView::init(), ops).entries.len() == num_logs(ops),
    decreases ops.len(),
{
    if ops.len() == 0 {
        assert(assoc_map(Seq::<(Seq<char>, Seq<char>)>::empty()) =~= Map::<
            Seq<char>,
            Seq<char>,
        >::empty());
        assert(run_ops(StreamView::init(), ops).label_map().dom() =~= ops_label_keys(ops));
    } else {
        lemma_run_ops(ops.drop_last());
        let prev = run_ops(StreamView::init(), ops.drop_last());
        match ops.last() {
            BuilderOp::Label(k, v) => {
                lemma_assoc_set(prev.labels, k, v);
                assert(run_ops(StreamView::init(), ops).label_map().dom() =~= ops_label_keys(ops));
            },
            BuilderOp::Log(_, _) => {},
        }
    }
}

/// Two fresh builders given the same sequence of calls assemble streams with
/// the same labels and the same entries: building is deterministic in the
/// calls made (`log` calls taken with explicit timestamps, since a defaulted
/// timestamp is read off the wall clock).
pub proof fn lemma_build_deterministic(ops1: Seq<BuilderOp>, ops2: Seq<BuilderOp>)
    requires
        ops1 == ops2,
    ensures
        run_ops(StreamView::init(), ops1) == run_ops(StreamView::init(), ops2),
{
}

/// The view of stored label pairs.
pub open spec fn labels_view(s: Seq<(String, String)>) -> Seq<(Seq<char>, Seq<char>)> {
    s.map_values(|p: (String, String)| (p.0@, p.1@))
}

/// The view of stored entries.
pub open spec fn entries_view(s: Seq<(u128, String)>) -> Seq<(u128, Seq<char>)> {
    s.map_values(|p: (u128, String)| (p.0, p.1@))
}

/// One batch of log lines under one fixed label set, read-only once built.
///
/// A `Stream` comes only out of [`Builder::build`], so its label keys are
/// always unique.
#[derive(Debug, Clone)]
pub struct Stream {
    labels: Vec<(String, String)>,
    entries: Vec<(u128, String)>,
}

impl View for Stream {
    type V = StreamView;

    closed spec fn view(&self) -> StreamView {
        StreamView { labels: labels_view(self.labels@), entries: entries_view(self.entries@) }
    }
}

impl Stream {
    /// The label pairs, in storage order.
    pub fn labels(&self) -> (r: &Vec<(String, String)>)
        ensures
            labels_view(r@) == self@.labels,
    {
        &self.labels
    }

    /// The entries, in the order the `log` calls were made.
    pub fn entries(&self) -> (r: &Vec<(u128, String)>)
        ensures
            entries_view(r@) == self@.entries,
    {
        &self.entries
    }
}

/// The wire envelope of a push: an ordered sequence of streams.
#[derive(Debug, Clone)]
pub struct Streams {
    pub streams: Vec<Stream>,
}

impl View for Streams {
    type V = Seq<StreamView>;

    open spec fn view(&self) -> Seq<StreamView> {
        self.streams@.map_values(|s: Stream| s@)
    }
}

/// Assembles a [`Stream`] incrementally; each call consumes the builder and
/// hands an advanced one back, and `build` finishes it.
#[derive(Debug)]
pub struct Builder {
    stream: Stream,
}

impl View for Builder {
    type V = StreamView;

    closed spec fn view(&self) -> StreamView {
        self.stream@
    }
}

impl Builder {
    /// A builder with an empty label set and an empty entry sequence.
    pub fn new() -> (r: Builder)
        ensures
            r@ == StreamView::init(),
            r@.wf(),
    {
        let b = Builder { stream: Stream { labels: Vec::new(), entries: Vec::new() } };
        proof {
            assert(b@.labels =~= StreamView::init().labels);
            assert(b@.entries =~= StreamView::init().entries);
            assert(b@ =~= StreamView::init());
        }
        b
    }

    /// Sets the label `key` to `value`; a later call for the same key wins.
    pub fn label(self, key: &str, value: &str) -> (r: Builder)
        requires
            self@.wf(),
        ensures
            r@ == apply_op(self@, BuilderOp::Label(key@, value@)),
            r@.wf(),
            r@.label_map() == self@.label_map().insert(key@, value@),
            r@.entries == self@.entries,
    {
        let mut b = self;
        let key_owned = String::from_str(key);
        let value_owned = String::from_str(value);
        let ghost before = b@.labels;
        let found = find_key_idx(&b.stream.labels, &key_owned);
        match found {
            Some(j) => {
                proof {
                    assert(before[j as int].0 == key@);
                }
                let _ = b.stream.labels.remove(j);
                proof {
                    assert(labels_view(b.stream.labels@) =~= before.remove(j as int));
                    lemma_remove_key_at(before, key@, j as int);
                }
            },
            None => {
                proof {
                    assert(!key_present(before, key@)) by {
                        if key_present(before, key@) {
                            let j = choose|j: int| 0 <= j < before.len() && before[j].0 == key@;
                            assert(b.stream.labels@[j].0@ != key@);
                        }
                    }
                    lemma_remove_key_none(before, key@);
                }
            },
        }
        proof {
            assert(labels_view(b.stream.labels@) == remove_key(before, key@));
        }
        b.stream.labels.push((key_owned, value_owned));
        proof {
            assert(labels_view(b.stream.labels@) =~= remove_key(before, key@).push(
                (key@, value@),
            ));
            assert(b@.labels == assoc_set(before, key@, value@));
            assert(b@.entries =~= self@.entries);
            lemma_assoc_set(before, key@, value@);
            assert(b@ =~= apply_op(self@, BuilderOp::Label(key@, value@)));
        }
        b
    }

    /// Appends one entry with the given timestamp.
    pub fn log_at(self, timestamp: u128, text: &str) -> (r: Builder)
        ensures
            r@ == apply_op(self@, BuilderOp::Log(timestamp, text@)),
    {
        let mut b = self;
        b.stream.entries.push((timestamp, String::from_str(text)));
        proof {
            assert(b@.entries =~= self@.entries.push((timestamp, text@)));
            assert(b@.labels =~= self@.labels);
            assert(b@ =~= apply_op(self@, BuilderOp::Log(timestamp, text@)));
        }
        b
    }

    /// Appends one entry. With `Some(t)` the timestamp `t` passes through
    /// unchanged; with `None` the current wall-clock time in nanoseconds
    /// since the Unix epoch is substituted, and a clock standing before the
    /// epoch is reported as `ClockError` instead.
    pub fn log(self, timestamp: Option<u128>, text: &str) -> (r: Result<Builder, ClockError>)
        ensures
            timestamp is Some ==> r is Ok && r->Ok_0@ == apply_op(
                self@,
                BuilderOp::Log(timestamp->0, text@),
            ),
            r is Ok ==> exists|t: u128| r->Ok_0@ == apply_op(self@, BuilderOp::Log(t, text@)),
            r is Err ==> timestamp is None,
    {
        match timestamp {
            Some(t) => Ok(self.log_at(t, text)),
            None => {
                match clock::now_unix_nanos() {
                    Ok(t) => Ok(self.log_at(t, text)),
                    Err(e) => Err(e),
                }
            },
        }
    }

    /// Finishes the stream; the builder is consumed.
    pub fn build(self) -> (r: Stream)
        ensures
            r@ == self@,
    {
        self.stream
    }
}

} // verus!
