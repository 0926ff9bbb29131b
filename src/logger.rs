//! The logger: level filter, plugin chain, targets and the pool of records.
use vstd::prelude::*;
use vstd::rwlock::{RwLock, RwLockPredicate};
use crate::define::{Level, LEVEL_TRACE};
use crate::define::level_name;
use crate::encode::{decimal, json_string, json_text};
use crate::plugin::{kept_positions, level_label, rfc3339_text, PluginEntry};
use crate::record::field;
use crate::record::{opened, sealed, Record, RecordView};
use crate::source::Source;
use crate::target::Target;

verus! {

/// Initial capacity of a record's buffer, unless the logger is set otherwise.
pub const DEFAULT_CAPACITY: usize = 512;

/// The pool holds any records at all.
struct PoolPred;

impl RwLockPredicate<Vec<Record>> for PoolPred {
    open spec fn inv(self, v: Vec<Record>) -> bool {
        true
    }
}

/// A record as `spawn` hands it to the first plugin.
pub open spec fn fresh(level: Level, source: Source) -> RecordView {
    RecordView { level, bytes: opened(), source }
}

/// `states` is a run of the first `states.len() - 1` pre hooks of `chain`,
/// each taking the record from one state to the next and letting it go on.
pub open spec fn pre_run(chain: Seq<PluginEntry>, states: Seq<RecordView>) -> bool {
    &&& 1 <= states.len() <= chain.len() + 1
    &&& forall|k: int|
        0 <= k < states.len() - 1 ==> #[trigger] chain[k].pre_allows(states[k], states[k + 1], true)
}

/// The same for the post hooks.
pub open spec fn post_run(chain: Seq<PluginEntry>, states: Seq<RecordView>) -> bool {
    &&& 1 <= states.len() <= chain.len() + 1
    &&& forall|k: int|
        0 <= k < states.len() - 1 ==> #[trigger] chain[k].post_allows(states[k], states[k + 1], true)
}

/// Some state after `states.last()` is one in which the next pre hook stops the record.
pub open spec fn pre_vetoed(chain: Seq<PluginEntry>, states: Seq<RecordView>) -> bool {
    exists|last: RecordView| #[trigger] chain[states.len() - 1].pre_allows(states.last(), last, false)
}

/// The same for the post hooks.
pub open spec fn post_vetoed(chain: Seq<PluginEntry>, states: Seq<RecordView>) -> bool {
    exists|last: RecordView| #[trigger] chain[states.len() - 1].post_allows(states.last(), last, false)
}

/// Every pre hook of `chain`, in order, lets the record go on, taking it from
/// `start` to `end`.
pub open spec fn pre_passed(chain: Seq<PluginEntry>, start: RecordView, end: RecordView) -> bool {
    exists|states: Seq<RecordView>|
        #[trigger] pre_run(chain, states) && states.len() == chain.len() + 1 && states[0] == start
            && states.last() == end
}

/// The pre hooks of `chain` run in order from `start` until one stops the record.
pub open spec fn pre_stopped(chain: Seq<PluginEntry>, start: RecordView) -> bool {
    exists|states: Seq<RecordView>|
        #[trigger] pre_run(chain, states) && states.len() <= chain.len() && states[0] == start
            && pre_vetoed(chain, states)
}

/// Every post hook of `chain`, in order, lets the record go on, taking it
/// from `start` to `end`.
pub open spec fn post_passed(chain: Seq<PluginEntry>, start: RecordView, end: RecordView) -> bool {
    exists|states: Seq<RecordView>|
        #[trigger] post_run(chain, states) && states.len() == chain.len() + 1 && states[0] == start
            && states.last() == end
}

/// The post hooks of `chain` run in order from `start` until one stops the record.
pub open spec fn post_stopped(chain: Seq<PluginEntry>, start: RecordView) -> bool {
    exists|states: Seq<RecordView>|
        #[trigger] post_run(chain, states) && states.len() <= chain.len() && states[0] == start
            && post_vetoed(chain, states)
}

/// A record in state `v` after `finish`.
pub open spec fn finished(v: RecordView) -> RecordView {
    RecordView { bytes: sealed(v.bytes), ..v }
}

/// Without plugins nothing can stop a record: a logger with an empty chain
/// yields a record for every level that passes its filter.
pub proof fn lemma_empty_chain_never_stops(chain: Seq<PluginEntry>, start: RecordView)
    requires
        chain.len() == 0,
    ensures
        !pre_stopped(chain, start),
        !post_stopped(chain, start),
{
}

/// Built-in plugins never stop a record: with only those mounted, every
/// level that passes the filter yields a record, and every flush writes.
pub proof fn lemma_built_in_chain_never_stops(chain: Seq<PluginEntry>, start: RecordView)
    requires
        forall|i: int| 0 <= i < chain.len() ==> (#[trigger] chain[i]).is_built_in(),
    ensures
        !pre_stopped(chain, start),
        !post_stopped(chain, start),
{
    assert forall|states: Seq<RecordView>| #[trigger] pre_run(chain, states) && states.len() <= chain.len()
        implies !pre_vetoed(chain, states) by {
        assert(chain[states.len() - 1].is_built_in());
    }
    assert forall|states: Seq<RecordView>| #[trigger] post_run(chain, states) && states.len() <= chain.len()
        implies !post_vetoed(chain, states) by {
        assert(chain[states.len() - 1].is_built_in());
    }
}

/// With the level plugin mounted and then the time plugin, the pre hooks
/// write the `level` field and then the `time` field, in that order, after
/// what the record held.
pub proof fn lemma_level_then_time(chain: Seq<PluginEntry>, start: RecordView, end: RecordView)
    requires
        chain.len() == 2,
        chain[0] is Level,
        chain[1] is Time,
        pre_passed(chain, start, end),
    ensures
        exists|time: Seq<char>|
            {
                &&& rfc3339_text(time, chain[1]->Time_0.format)
                &&& end == RecordView {
                    bytes: start.bytes + field("level"@, json_string(level_label(start.level))) + field(
                        "time"@,
                        #[trigger] json_text(time),
                    ),
                    ..start
                }
            },
{
    let states = choose|states: Seq<RecordView>|
        #[trigger] pre_run(chain, states) && states.len() == chain.len() + 1 && states[0] == start
            && states.last() == end;
    assert(chain[0].pre_allows(states[0], states[1], true));
    assert(chain[1].pre_allows(states[1], states[2], true));
    let time = choose|time: Seq<char>|
        rfc3339_text(time, chain[1]->Time_0.format) && states[2] == RecordView {
            bytes: states[1].bytes + field("time"@, #[trigger] json_text(time)),
            ..states[1]
        };
    assert(states[2].bytes =~= start.bytes + field("level"@, json_string(level_label(start.level)))
        + field("time"@, json_text(time)));
}

/// A level that is not built in, with the level plugin mounted alone, is
/// written as its decimal number: `{"level":"10"` for level 10.
pub proof fn lemma_custom_level_field(chain: Seq<PluginEntry>, level: Level, source: Source, end: RecordView)
    requires
        chain.len() == 1,
        chain[0] is Level,
        level_name(level) is None,
        pre_passed(chain, fresh(level, source), end),
    ensures
        end == (RecordView {
            bytes: opened() + field("level"@, json_string(decimal(level as int))),
            level,
            source,
        }),
{
    let states = choose|states: Seq<RecordView>|
        #[trigger] pre_run(chain, states) && states.len() == chain.len() + 1 && states[0] == fresh(
            level,
            source,
        ) && states.last() == end;
    assert(chain[0].pre_allows(states[0], states[1], true));
}

/// A target as the logger holds it.
pub struct TargetEntry {
    pub target: Box<dyn Target>,
}

/// The Logger
///
/// Holds the level filter, the plugin chain, the targets and a pool of
/// retired records; spawns records and flushes them.
pub struct Logger {
    barrier: Level,
    capacity: usize,
    records: RwLock<Vec<Record>, PoolPred>,
    plugins: Vec<PluginEntry>,
    targets: Vec<TargetEntry>,
    default: Option<&'static dyn Target>,
}

impl Logger {
    /// The level filter: records below it are discarded.
    pub closed spec fn filter(&self) -> Level {
        self.barrier
    }

    /// The plugins, in mount order.
    pub closed spec fn chain(&self) -> Seq<PluginEntry> {
        self.plugins@
    }

    /// The routed targets, in route order.
    pub closed spec fn sinks(&self) -> Seq<TargetEntry> {
        self.targets@
    }

    /// Initial buffer capacity of a record that the pool could not supply.
    pub closed spec fn record_capacity(&self) -> usize {
        self.capacity
    }

    /// The default target, written before the routed ones.
    pub closed spec fn fallback(&self) -> Option<&'static dyn Target> {
        self.default
    }

    /// Create a logger with an optional default target, which cannot be
    /// removed; the filter lets every level through.
    pub fn new(default: Option<&'static dyn Target>) -> (r: Self)
        ensures
            r.filter() == LEVEL_TRACE,
            r.chain().len() == 0,
            r.sinks().len() == 0,
            r.fallback() == default,
            r.record_capacity() == DEFAULT_CAPACITY,
    {
        Logger {
            barrier: LEVEL_TRACE,
            capacity: DEFAULT_CAPACITY,
            records: RwLock::new(Vec::new(), Ghost(PoolPred)),
            plugins: Vec::new(),
            targets: Vec::new(),
            default,
        }
    }

    /// Create a logger without any target.
    pub fn nop() -> (r: Self)
        ensures
            r.filter() == LEVEL_TRACE,
            r.chain().len() == 0,
            r.sinks().len() == 0,
            r.fallback() is None,
            r.record_capacity() == DEFAULT_CAPACITY,
    {
        Self::new(None)
    }

    /// Get current log level
    pub fn level(&self) -> (r: Level)
        ensures
            r == self.filter(),
    {
        self.barrier
    }

    /// Set current log level
    pub fn limit(&mut self, level: Level) -> (r: &mut Self)
        ensures
            r.filter() == level,
            r.chain() == old(self).chain(),
            r.sinks() == old(self).sinks(),
            r.fallback() == old(self).fallback(),
            r.record_capacity() == old(self).record_capacity(),
            *final(self) == *final(r),
    {
        self.barrier = level;
        self
    }

    /// Set the initial buffer capacity of records made from now on when the
    /// pool has none to give.
    pub fn capacity(&mut self, capacity: usize) -> (r: &mut Self)
        ensures
            r.filter() == old(self).filter(),
            r.chain() == old(self).chain(),
            r.sinks() == old(self).sinks(),
            r.fallback() == old(self).fallback(),
            r.record_capacity() == capacity,
            *final(self) == *final(r),
    {
        self.capacity = capacity;
        self
    }

    /// Whether a record at `level` passes the filter: it does when `level`
    /// is equal to or above it.
    pub fn allow(&self, level: Level) -> (r: bool)
        ensures
            r == (level >= self.filter()),
    {
        level >= self.barrier
    }

    /// Install a plugin after those already there.
    pub fn mount(&mut self, plugin: PluginEntry) -> (r: &mut Self)
        ensures
            r.filter() == old(self).filter(),
            r.chain() == old(self).chain().push(plugin),
            r.sinks() == old(self).sinks(),
            r.fallback() == old(self).fallback(),
            r.record_capacity() == old(self).record_capacity(),
            *final(self) == *final(r),
    {
        self.plugins.push(plugin);
        self
    }

    /// Uninstall every plugin for which `del` answers `true`; the others
    /// keep their order.
    pub fn unmount(&mut self, del: impl Fn(&PluginEntry) -> bool) -> (r: &mut Self)
        requires
            forall|p: &PluginEntry| #[trigger] del.requires((p,)),
        ensures
            r.filter() == old(self).filter(),
            exists|removed: Seq<bool>|
                #![trigger kept_positions(removed)]
                {
                    &&& removed.len() == old(self).chain().len()
                    &&& forall|i: int|
                        0 <= i < removed.len() ==> #[trigger] del.ensures(
                            (&old(self).chain()[i],),
                            removed[i],
                        )
                    &&& r.chain().len() == kept_positions(removed).len()
                    &&& forall|k: int|
                        0 <= k < r.chain().len() ==> #[trigger] r.chain()[k] == old(self).chain()[kept_positions(
                            removed,
                        )[k]]
                },
            r.sinks() == old(self).sinks(),
            r.fallback() == old(self).fallback(),
            r.record_capacity() == old(self).record_capacity(),
            *final(self) == *final(r),
    {
        let ghost all = self.plugins@;
        let mut kept: Vec<PluginEntry> = Vec::new();
        let ghost mut removed: Seq<bool> = Seq::empty();
        let n = self.plugins.len();
        let mut j: usize = 0;
        while j < n
            invariant
                forall|p: &PluginEntry| #[trigger] del.requires((p,)),
                n == all.len(),
                j <= n,
                removed.len() == j,
                self.plugins@ == all.subrange(j as int, n as int),
                kept@.len() == kept_positions(removed).len(),
                forall|k: int|
                    0 <= k < kept@.len() ==> #[trigger] kept@[k] == all[kept_positions(removed)[k]],
                forall|k: int| 0 <= k < j ==> #[trigger] del.ensures((&all[k],), removed[k]),
                self.barrier == old(self).barrier,
                self.targets@ == old(self).targets@,
                self.default == old(self).default,
                self.capacity == old(self).capacity,
            decreases n - j,
        {
            let item = self.plugins.remove(0);
            assert(item == all[j as int]);
            let ghost before = removed;
            let d = del(&item);
            if !d {
                kept.push(item);
            }
            proof {
                removed = removed.push(d);
                assert(removed.drop_last() =~= before);
                assert(self.plugins@ =~= all.subrange(j + 1, n as int));
                assert(kept_positions(removed) == if d {
                    kept_positions(before)
                } else {
                    kept_positions(before).push(j as int)
                });
            }
            j = j + 1;
        }
        self.plugins = kept;
        self
    }

    /// Get all plugins, in mount order.
    pub fn plugins(&self) -> (r: &Vec<PluginEntry>)
        ensures
            r@ == self.chain(),
    {
        &self.plugins
    }

    /// Add an output target after those already there.
    pub fn route(&mut self, target: Box<dyn Target>) -> (r: &mut Self)
        ensures
            r.filter() == old(self).filter(),
            r.chain() == old(self).chain(),
            r.sinks() == old(self).sinks().push(TargetEntry { target }),
            r.fallback() == old(self).fallback(),
            r.record_capacity() == old(self).record_capacity(),
            *final(self) == *final(r),
    {
        self.targets.push(TargetEntry { target });
        self
    }

    /// Remove every routed target for which `del` answers `true`; the others
    /// keep their order.
    pub fn unroute(&mut self, del: impl Fn(&dyn Target) -> bool) -> (r: &mut Self)
        requires
            forall|p: &dyn Target| #[trigger] del.requires((p,)),
        ensures
            r.filter() == old(self).filter(),
            exists|removed: Seq<bool>|
                #![trigger kept_positions(removed)]
                {
                    &&& removed.len() == old(self).sinks().len()
                    &&& forall|i: int|
                        0 <= i < removed.len() ==> #[trigger] del.ensures(
                            (&*old(self).sinks()[i].target,),
                            removed[i],
                        )
                    &&& r.sinks().len() == kept_positions(removed).len()
                    &&& forall|k: int|
                        0 <= k < r.sinks().len() ==> #[trigger] r.sinks()[k] == old(self).sinks()[kept_positions(
                            removed,
                        )[k]]
                },
            r.chain() == old(self).chain(),
            r.fallback() == old(self).fallback(),
            r.record_capacity() == old(self).record_capacity(),
            *final(self) == *final(r),
    {
        let ghost all = self.targets@;
        let mut kept: Vec<TargetEntry> = Vec::new();
        let ghost mut removed: Seq<bool> = Seq::empty();
        let n = self.targets.len();
        let mut j: usize = 0;
        while j < n
            invariant
                forall|p: &dyn Target| #[trigger] del.requires((p,)),
                n == all.len(),
                j <= n,
                removed.len() == j,
                self.targets@ == all.subrange(j as int, n as int),
                kept@.len() == kept_positions(removed).len(),
                forall|k: int|
                    0 <= k < kept@.len() ==> #[trigger] kept@[k] == all[kept_positions(removed)[k]],
                forall|k: int| 0 <= k < j ==> #[trigger] del.ensures((&*all[k].target,), removed[k]),
                self.barrier == old(self).barrier,
                self.plugins@ == old(self).plugins@,
                self.default == old(self).default,
                self.capacity == old(self).capacity,
            decreases n - j,
        {
            let item = self.targets.remove(0);
            assert(item == all[j as int]);
            let ghost before = removed;
            let d = del(&*item.target);
            if !d {
                kept.push(item);
            }
            proof {
                removed = removed.push(d);
                assert(removed.drop_last() =~= before);
                assert(self.targets@ =~= all.subrange(j + 1, n as int));
                assert(kept_positions(removed) == if d {
                    kept_positions(before)
                } else {
                    kept_positions(before).push(j as int)
                });
            }
            j = j + 1;
        }
        self.targets = kept;
        self
    }

    /// Get all routed targets, the default target aside.
    pub fn targets(&self) -> (r: &Vec<TargetEntry>)
        ensures
            r@ == self.sinks(),
    {
        &self.targets
    }
    /// Create a new log record at `level`.
    ///
    /// Below the filter no record is made and no plugin runs. Otherwise a
    /// retired record is taken from the pool, or a new one made, and reset to
    /// the level and source; then the `pre` hooks run in mount order. The
    /// first one that answers `false` ends it: the record goes back to the
    /// pool and nothing is returned.
    pub fn spawn(&self, level: Level, source: Source) -> (r: Option<Record>)
        ensures
            level < self.filter() ==> r is None,
            r matches Some(rec) ==> level >= self.filter() && pre_passed(
                self.chain(),
                fresh(level, source),
                rec@,
            ),
            level >= self.filter() && r is None ==> pre_stopped(self.chain(), fresh(level, source)),
    {
        if !self.allow(level) {
            return None;
        }
        let (mut pool, handle) = self.records.acquire_write();
        let retired = pool.pop();
        handle.release_write(pool);
        let mut record = match retired {
            None => Record::new(level, self.capacity, source),
            Some(val) => Record::set(val, level, source),
        };
        let ghost mut states: Seq<RecordView> = seq![record@];
        let mut i: usize = 0;
        while i < self.plugins.len()
            invariant
                i <= self.chain().len(),
                level >= self.filter(),
                states.len() == i + 1,
                states[0] == fresh(level, source),
                pre_run(self.chain(), states),
                states.last() == record@,
            decreases self.chain().len() - i,
        {
            let go_on = self.plugins[i].pre(&mut record);
            if !go_on {
                assert(self.chain()[states.len() - 1].pre_allows(states.last(), record@, false));
                assert(pre_vetoed(self.chain(), states));
                self.reuse(record);
                return None;
            }
            proof {
                let next = states.push(record@);
                assert forall|k: int| 0 <= k < next.len() - 1 implies #[trigger] self.chain()[k].pre_allows(
                    next[k],
                    next[k + 1],
                    true,
                ) by {
                    if k < states.len() - 1 {
                        assert(next[k] == states[k] && next[k + 1] == states[k + 1]);
                    }
                }
                states = next;
            }
            i = i + 1;
        }
        assert(pre_passed(self.chain(), fresh(level, source), record@));
        Some(record)
    }

    /// Run the `post` hooks in mount order on a record whose fields are all
    /// appended, then finish it. The first hook that answers `false` stops
    /// it: the record is not finished and the answer is `false`.
    pub fn seal(&self, record: &mut Record) -> (go_on: bool)
        ensures
            go_on ==> exists|end: RecordView|
                #![trigger post_passed(self.chain(), old(record)@, end)]
                post_passed(self.chain(), old(record)@, end) && final(record)@ == finished(end),
            !go_on ==> post_stopped(self.chain(), old(record)@),
    {
        let ghost mut states: Seq<RecordView> = seq![record@];
        let mut i: usize = 0;
        while i < self.plugins.len()
            invariant
                i <= self.chain().len(),
                states.len() == i + 1,
                states[0] == old(record)@,
                post_run(self.chain(), states),
                states.last() == record@,
            decreases self.chain().len() - i,
        {
            let go_on = self.plugins[i].post(record);
            if !go_on {
                assert(self.chain()[states.len() - 1].post_allows(states.last(), record@, false));
                assert(post_vetoed(self.chain(), states));
                return false;
            }
            proof {
                let next = states.push(record@);
                assert forall|k: int| 0 <= k < next.len() - 1 implies #[trigger] self.chain()[k].post_allows(
                    next[k],
                    next[k + 1],
                    true,
                ) by {
                    if k < states.len() - 1 {
                        assert(next[k] == states[k] && next[k + 1] == states[k + 1]);
                    }
                }
                states = next;
            }
            i = i + 1;
        }
        let ghost end = record@;
        record.finish();
        assert(post_passed(self.chain(), old(record)@, end));
        true
    }

    /// Finish and output a record; the answer says whether it was written.
    ///
    /// When every `post` hook lets it go on, the record is finished and its
    /// bytes, those of `finished(end)`, are written to the default target,
    /// then to every routed target in route order, and the answer is `true`.
    /// When a `post` hook stops it, no target is written to and the answer is
    /// `false`. Either way the record goes back to the pool.
    pub fn flush(&self, record: Record) -> (written: bool)
        ensures
            written ==> exists|end: RecordView|
                #![trigger post_passed(self.chain(), record@, end)]
                post_passed(self.chain(), record@, end),
            !written ==> post_stopped(self.chain(), record@),
    {
        let mut record = record;
        let written = self.seal(&mut record);
        if written {
            if let Some(target) = self.default {
                target.write(record.buffer().as_slice());
            }
            let mut i: usize = 0;
            while i < self.targets.len()
                decreases self.sinks().len() - i,
            {
                self.targets[i].target.write(record.buffer().as_slice());
                i = i + 1;
            }
        }
        self.reuse(record);
        written
    }

    /// Put a record back into the pool for a later `spawn`. `flush` does it
    /// for every record it is handed.
    pub fn reuse(&self, record: Record) {
        let (mut pool, handle) = self.records.acquire_write();
        pool.push(record);
        handle.release_write(pool);
    }
}

} // verus!
