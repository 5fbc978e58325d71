//! The relational store of the persisted history-window variant, modeled as
//! plain values: one table of history rows and one of per-channel window
//! configuration, with the key and ordering invariants the schema gives them.

use vstd::prelude::*;

verus! {

/// One row of message history: a message seen while windowing was enabled
/// for its channel. Message identifiers are the table's primary key.
#[derive(Clone, Copy, PartialEq, Eq, Structural, Debug)]
pub struct History {
    pub message_id: u64,
    pub channel_id: u64,
}

/// One row of window configuration: the channel's retention bound. Channel
/// identifiers are the table's primary key; absence of a row means windowing
/// is disabled for that channel.
#[derive(Clone, Copy, PartialEq, Eq, Structural, Debug)]
pub struct HistoryWindowConfig {
    pub channel_id: u64,
    pub window_size: i32,
}

/// The error a store operation can produce: a violated primary key.
#[derive(Clone, Copy, PartialEq, Eq, Structural, Debug)]
pub enum StoreError {
    DuplicateMessageId,
}

/// Mathematical view of the store: the history rows, newest first, and the
/// configuration as a map from channel to window size.
#[verifier::ext_equal]
pub ghost struct StoreView {
    pub rows: Seq<History>,
    pub config: Map<u64, i32>,
}

/// The configuration map a sequence of configuration rows denotes.
pub open spec fn config_map(s: Seq<HistoryWindowConfig>) -> Map<u64, i32>
    decreases s.len(),
{
    if s.len() == 0 {
        Map::empty()
    } else {
        config_map(s.drop_last()).insert(s.last().channel_id, s.last().window_size)
    }
}

/// Whether a sequence of configuration rows has pairwise distinct channels.
pub open spec fn config_keys_unique(s: Seq<HistoryWindowConfig>) -> bool {
    forall|i: int, j: int|
        0 <= i < j < s.len() ==> s[i].channel_id != s[j].channel_id
}

/// Whether history rows are strictly ordered by message identifier, newest
/// first.
pub open spec fn rows_sorted_desc(s: Seq<History>) -> bool {
    forall|i: int, j: int| 0 <= i < j < s.len() ==> s[i].message_id > s[j].message_id
}

/// Whether some row carries the given message identifier.
pub open spec fn has_message_id(rows: Seq<History>, id: u64) -> bool {
    exists|i: int| 0 <= i < rows.len() && rows[i].message_id == id
}

/// `rows` with `row` inserted at its place in the newest-first order.
pub open spec fn insert_desc(rows: Seq<History>, row: History) -> Seq<History>
    decreases rows.len(),
{
    if rows.len() == 0 {
        seq![row]
    } else if row.message_id > rows[0].message_id {
        seq![row] + rows
    } else {
        seq![rows[0]] + insert_desc(rows.drop_first(), row)
    }
}

/// `rows` without the rows carrying the given message identifier.
pub open spec fn remove_id(rows: Seq<History>, id: u64) -> Seq<History>
    decreases rows.len(),
{
    if rows.len() == 0 {
        Seq::empty()
    } else {
        let rest = remove_id(rows.drop_first(), id);
        if rows[0].message_id == id {
            rest
        } else {
            seq![rows[0]] + rest
        }
    }
}

/// `rows` without the rows carrying any of the given message identifiers,
/// removed in order.
pub open spec fn remove_ids(rows: Seq<History>, ids: Seq<u64>) -> Seq<History>
    decreases ids.len(),
{
    if ids.len() == 0 {
        rows
    } else {
        remove_ids(remove_id(rows, ids[0]), ids.drop_first())
    }
}

/// The rows of one channel, in the order they stand in `rows`.
pub open spec fn channel_rows(rows: Seq<History>, c: u64) -> Seq<History>
    decreases rows.len(),
{
    if rows.len() == 0 {
        Seq::empty()
    } else {
        let rest = channel_rows(rows.drop_first(), c);
        if rows[0].channel_id == c {
            seq![rows[0]] + rest
        } else {
            rest
        }
    }
}

/// The rows of channel `c` beyond the first `keep` in `rows` order: what a
/// windowed select with that offset returns.
pub open spec fn excess_rows(rows: Seq<History>, c: u64, keep: int) -> Seq<History> {
    let cr = channel_rows(rows, c);
    if keep >= cr.len() {
        Seq::empty()
    } else if keep < 0 {
        cr
    } else {
        cr.subrange(keep, cr.len() as int)
    }
}

/// The in-memory model of the persisted store.
pub struct HistoryStore {
    rows: Vec<History>,
    config: Vec<HistoryWindowConfig>,
}

impl View for HistoryStore {
    type V = StoreView;

    closed spec fn view(&self) -> StoreView {
        StoreView { rows: self.rows@, config: config_map(self.config@) }
    }
}

proof fn lemma_config_map_props(s: Seq<HistoryWindowConfig>)
    requires
        config_keys_unique(s),
    ensures
        forall|c: u64|
            #[trigger] config_map(s).contains_key(c) <==> exists|i: int|
                0 <= i < s.len() && s[i].channel_id == c,
        forall|i: int|
            0 <= i < s.len() ==> config_map(s).contains_key(#[trigger] s[i].channel_id)
                && config_map(s)[s[i].channel_id] == s[i].window_size,
    decreases s.len(),
{
    if s.len() > 0 {
        lemma_config_map_props(s.drop_last());
        assert forall|i: int| 0 <= i < s.len() implies config_map(s).contains_key(
            #[trigger] s[i].channel_id,
        ) && config_map(s)[s[i].channel_id] == s[i].window_size by {
            if i < s.len() - 1 {
                assert(s.drop_last()[i] == s[i]);
                assert(s[i].channel_id != s.last().channel_id);
            }
        }
        assert forall|c: u64| #[trigger] config_map(s).contains_key(c) implies exists|i: int|
            0 <= i < s.len() && s[i].channel_id == c by {
            if c != s.last().channel_id {
                assert(config_map(s.drop_last()).contains_key(c));
                let i = choose|i: int|
                    0 <= i < s.drop_last().len() && s.drop_last()[i].channel_id == c;
                assert(s.drop_last()[i] == s[i]);
                assert(s[i].channel_id == c);
            } else {
                assert(s[s.len() - 1].channel_id == c);
            }
        }
        assert forall|c: u64| (exists|i: int| 0 <= i < s.len() && s[i].channel_id == c)
            implies #[trigger] config_map(s).contains_key(c) by {
            let i = choose|i: int| 0 <= i < s.len() && s[i].channel_id == c;
            if i < s.len() - 1 {
                assert(s.drop_last()[i].channel_id == c);
            }
        }
    }
}

proof fn lemma_config_map_remove(s: Seq<HistoryWindowConfig>, i: int)
    requires
        config_keys_unique(s),
        0 <= i < s.len(),
    ensures
        config_map(s.remove(i)) == config_map(s).remove(s[i].channel_id),
    decreases s.len(),
{
    lemma_config_map_props(s);
    if i == s.len() - 1 {
        assert(s.remove(i) =~= s.drop_last());
        lemma_config_map_props(s.drop_last());
        assert(!config_map(s.drop_last()).contains_key(s[i].channel_id));
        assert(config_map(s.drop_last()) =~= config_map(s).remove(s[i].channel_id));
    } else {
        let t = s.drop_last();
        lemma_config_map_remove(t, i);
        assert(s.remove(i).drop_last() =~= t.remove(i));
        assert(s.remove(i).last() == s.last());
        assert(config_map(s.remove(i)) == config_map(t.remove(i)).insert(
            s.last().channel_id,
            s.last().window_size,
        ));
        assert(config_map(t.remove(i)).insert(s.last().channel_id, s.last().window_size)
            =~= config_map(s).remove(s[i].channel_id));
    }
}

impl HistoryStore {
    /// Structural invariant: rows strictly newest-first (so message
    /// identifiers are unique), channels configured at most once, and every
    /// configured window size positive.
    pub closed spec fn wf(&self) -> bool {
        &&& rows_sorted_desc(self.rows@)
        &&& config_keys_unique(self.config@)
        &&& forall|i: int| 0 <= i < self.config@.len() ==> self.config@[i].window_size >= 1
    }

    /// Every configured window size is positive.
    pub proof fn lemma_config_positive(&self)
        requires
            self.wf(),
        ensures
            forall|c: u64|
                self@.config.contains_key(c) ==> #[trigger] self@.config[c] >= 1,
    {
        lemma_config_map_props(self.config@);
    }

    /// An empty store.
    pub fn new() -> (r: Self)
        ensures
            r.wf(),
            r@.rows =~= Seq::<History>::empty(),
            r@.config =~= Map::<u64, i32>::empty(),
    {
        HistoryStore { rows: Vec::new(), config: Vec::new() }
    }

    /// The configured window size of a channel, or nothing when windowing is
    /// disabled for it.
    pub fn window_size(&self, channel_id: u64) -> (r: Option<i32>)
        requires
            self.wf(),
        ensures
            r == if self@.config.contains_key(channel_id) {
                Some(self@.config[channel_id])
            } else {
                None::<i32>
            },
    {
        proof {
            lemma_config_map_props(self.config@);
        }
        let mut i: usize = 0;
        while i < self.config.len()
            invariant
                i <= self.config@.len(),
                forall|j: int| 0 <= j < i ==> self.config@[j].channel_id != channel_id,
                forall|c: u64|
                    #[trigger] config_map(self.config@).contains_key(c) <==> exists|k: int|
                        0 <= k < self.config@.len() && self.config@[k].channel_id == c,
                forall|k: int|
                    0 <= k < self.config@.len() ==> config_map(self.config@).contains_key(
                        #[trigger] self.config@[k].channel_id,
                    ) && config_map(self.config@)[self.config@[k].channel_id]
                        == self.config@[k].window_size,
            decreases self.config@.len() - i,
        {
            if self.config[i].channel_id == channel_id {
                return Some(self.config[i].window_size);
            }
            i = i + 1;
        }
        proof {
            if self@.config.contains_key(channel_id) {
                let k = choose|k: int|
                    0 <= k < self.config@.len() && self.config@[k].channel_id == channel_id;
                assert(false);
            }
        }
        None
    }

    /// Installs or updates the window size of a channel: an upsert keyed by
    /// the channel identifier.
    pub fn set_window_size(&mut self, channel_id: u64, size: i32)
        requires
            old(self).wf(),
            size >= 1,
        ensures
            final(self).wf(),
            final(self)@.rows == old(self)@.rows,
            final(self)@.config == old(self)@.config.insert(channel_id, size),
    {
        let ghost orig = self.config@;
        let mut i: usize = 0;
        while i < self.config.len()
            invariant
                i <= self.config@.len(),
                *self == *old(self),
                orig == old(self).config@,
                old(self).wf(),
                size >= 1,
                forall|j: int| 0 <= j < i ==> orig[j].channel_id != channel_id,
            decreases self.config@.len() - i,
        {
            if self.config[i].channel_id == channel_id {
                let _ = self.config.remove(i);
                proof {
                    lemma_config_map_remove(orig, i as int);
                }
                self.config.push(HistoryWindowConfig { channel_id, window_size: size });
                proof {
                    let pruned = orig.remove(i as int);
                    assert(self.config@.drop_last() =~= pruned);
                    assert(config_map(self.config@) =~= config_map(orig).insert(
                        channel_id,
                        size,
                    ));
                    assert forall|a: int, b: int|
                        0 <= a < b < self.config@.len() implies self.config@[a].channel_id
                        != self.config@[b].channel_id by {
                        if b < self.config@.len() - 1 {
                            assert(self.config@[a] == pruned[a]);
                            assert(self.config@[b] == pruned[b]);
                        } else {
                            assert(self.config@[a] == pruned[a]);
                            if a < i {
                                assert(pruned[a] == orig[a]);
                            } else {
                                assert(pruned[a] == orig[a + 1]);
                            }
                        }
                    }
                    assert forall|j: int|
                        0 <= j < self.config@.len() implies self.config@[j].window_size
                        >= 1 by {
                        if j < self.config@.len() - 1 {
                            assert(self.config@[j] == pruned[j]);
                            if j < i {
                                assert(pruned[j] == orig[j]);
                            } else {
                                assert(pruned[j] == orig[j + 1]);
                            }
                        }
                    }
                }
                return ;
            }
            i = i + 1;
        }
        self.config.push(HistoryWindowConfig { channel_id, window_size: size });
        proof {
            assert(self.config@.drop_last() =~= orig);
            assert(config_map(self.config@) == config_map(orig).insert(channel_id, size));
            assert forall|a: int, b: int|
                0 <= a < b < self.config@.len() implies self.config@[a].channel_id
                != self.config@[b].channel_id by {
                if b == self.config@.len() - 1 {
                    assert(self.config@[a] == orig[a]);
                    assert(orig[a].channel_id != channel_id);
                } else {
                    assert(self.config@[a] == orig[a]);
                    assert(self.config@[b] == orig[b]);
                }
            }
            assert forall|j: int|
                0 <= j < self.config@.len() implies self.config@[j].window_size >= 1 by {
                if j < self.config@.len() - 1 {
                    assert(self.config@[j] == orig[j]);
                }
            }
        }
    }

    /// Deletes the window configuration of a channel outright; its history
    /// rows are left as they stand.
    pub fn remove_window(&mut self, channel_id: u64)
        requires
            old(self).wf(),
        ensures
            final(self).wf(),
            final(self)@.rows == old(self)@.rows,
            final(self)@.config == old(self)@.config.remove(channel_id),
    {
        let ghost orig = self.config@;
        let mut i: usize = 0;
        while i < self.config.len()
            invariant
                i <= self.config@.len(),
                *self == *old(self),
                orig == old(self).config@,
                old(self).wf(),
                forall|j: int| 0 <= j < i ==> orig[j].channel_id != channel_id,
            decreases self.config@.len() - i,
        {
            if self.config[i].channel_id == channel_id {
                let _ = self.config.remove(i);
                proof {
                    lemma_config_map_remove(orig, i as int);
                    let pruned = orig.remove(i as int);
                    assert forall|a: int, b: int|
                        0 <= a < b < self.config@.len() implies self.config@[a].channel_id
                        != self.config@[b].channel_id by {
                        assert(self.config@[a] == pruned[a]);
                        assert(self.config@[b] == pruned[b]);
                    }
                    assert forall|j: int|
                        0 <= j < self.config@.len() implies self.config@[j].window_size
                        >= 1 by {
                        assert(self.config@[j] == pruned[j]);
                        if j < i {
                            assert(pruned[j] == orig[j]);
                        } else {
                            assert(pruned[j] == orig[j + 1]);
                        }
                    }
                }
                return ;
            }
            i = i + 1;
        }
        proof {
            lemma_config_map_props(orig);
            if config_map(orig).contains_key(channel_id) {
                let k = choose|k: int| 0 <= k < orig.len() && orig[k].channel_id == channel_id;
                assert(false);
            }
            assert(config_map(orig) =~= config_map(orig).remove(channel_id));
        }
    }

    /// Appends one history row, keeping the newest-first order. A row whose
    /// message identifier already stands violates the primary key and is
    /// refused with the store unchanged.
    pub fn insert_history(&mut self, row: History) -> (r: Result<(), StoreError>)
        requires
            old(self).wf(),
        ensures
            final(self).wf(),
            final(self)@.config == old(self)@.config,
            match r {
                Ok(()) => !has_message_id(old(self)@.rows, row.message_id) && final(self)@.rows
                    == insert_desc(old(self)@.rows, row),
                Err(e) => e == StoreError::DuplicateMessageId && has_message_id(
                    old(self)@.rows,
                    row.message_id,
                ) && final(self)@.rows == old(self)@.rows,
            },
    {
        let ghost orig = self.rows@;
        let mut pos: usize = 0;
        while pos < self.rows.len() && self.rows[pos].message_id > row.message_id
            invariant
                *self == *old(self),
                orig == old(self).rows@,
                old(self).wf(),
                pos <= orig.len(),
                forall|j: int| 0 <= j < pos ==> orig[j].message_id > row.message_id,
            decreases orig.len() - pos,
        {
            pos = pos + 1;
        }
        if pos < self.rows.len() && self.rows[pos].message_id == row.message_id {
            return Err(StoreError::DuplicateMessageId);
        }
        proof {
            assert forall|j: int| 0 <= j < orig.len() implies orig[j].message_id
                != row.message_id by {
                if j >= pos {
                    if j > pos {
                        assert(orig[pos as int].message_id > orig[j].message_id);
                    }
                }
            }
            lemma_insert_desc_at(orig, row, pos as int);
        }
        self.rows.insert(pos, row);
        proof {
            assert(self.rows@ =~= orig.take(pos as int) + seq![row] + orig.skip(pos as int));
            assert(self.rows@ =~= insert_desc(orig, row));
            assert forall|a: int, b: int|
                0 <= a < b < self.rows@.len() implies self.rows@[a].message_id
                > self.rows@[b].message_id by {
                let n = self.rows@.len();
                if b < pos {
                } else if a > pos {
                    assert(self.rows@[a] == orig[a - 1]);
                    assert(self.rows@[b] == orig[b - 1]);
                } else if a == pos && b > pos {
                    assert(self.rows@[b] == orig[b - 1]);
                    if b - 1 > pos {
                        assert(orig[pos as int].message_id > orig[b - 1].message_id);
                    }
                } else if b == pos {
                    assert(self.rows@[a] == orig[a]);
                } else {
                    assert(a < pos && b > pos);
                    assert(self.rows@[a] == orig[a]);
                    assert(self.rows@[b] == orig[b - 1]);
                    if b - 1 > pos {
                        assert(orig[pos as int].message_id > orig[b - 1].message_id);
                        assert(orig[a].message_id > row.message_id);
                        assert(row.message_id > orig[pos as int].message_id);
                    } else {
                        assert(b - 1 == pos);
                        assert(orig[a].message_id > row.message_id);
                        assert(row.message_id > orig[pos as int].message_id);
                    }
                }
            }
        }
        Ok(())
    }

    /// The rows of one channel beyond the first `keep` in newest-first
    /// order: what a windowed select with offset `keep` returns.
    pub fn channel_history_desc(&self, channel_id: u64, keep: usize) -> (r: Vec<History>)
        requires
            self.wf(),
        ensures
            r@ == excess_rows(self@.rows, channel_id, keep as int),
    {
        let ghost s = self.rows@;
        let mut r: Vec<History> = Vec::new();
        let mut seen: usize = 0;
        let ghost mut pre = Seq::<History>::empty();
        let mut i: usize = 0;
        proof {
            assert(s.skip(0) =~= s);
        }
        while i < self.rows.len()
            invariant
                s == self.rows@,
                self.wf(),
                i <= s.len(),
                seen <= i,
                pre.len() == seen,
                channel_rows(s, channel_id) == pre + channel_rows(s.skip(i as int), channel_id),
                r@ == if seen <= keep {
                    Seq::<History>::empty()
                } else {
                    pre.skip(keep as int)
                },
            decreases s.len() - i,
        {
            proof {
                assert(s.skip(i as int).drop_first() =~= s.skip(i as int + 1));
                assert(s.skip(i as int)[0] == s[i as int]);
            }
            let row = self.rows[i];
            if row.channel_id == channel_id {
                if seen >= keep {
                    r.push(row);
                }
                proof {
                    let pre2 = pre.push(row);
                    assert(channel_rows(s.skip(i as int), channel_id) == seq![row]
                        + channel_rows(s.skip(i as int + 1), channel_id));
                    assert(pre + (seq![row] + channel_rows(s.skip(i as int + 1), channel_id))
                        =~= pre2 + channel_rows(s.skip(i as int + 1), channel_id));
                    if seen + 1 > keep {
                        assert(r@ =~= pre2.skip(keep as int));
                    }
                    pre = pre2;
                }
                seen = seen + 1;
            }
            i = i + 1;
        }
        proof {
            assert(s.skip(s.len() as int) =~= Seq::<History>::empty());
            assert(pre + channel_rows(s.skip(s.len() as int), channel_id) =~= pre);
            assert(pre == channel_rows(s, channel_id));
            if seen > keep {
                assert(pre.skip(keep as int) =~= excess_rows(s, channel_id, keep as int));
            }
        }
        r
    }

    /// Deletes the history rows carrying the given message identifier; the
    /// configuration is untouched.
    pub fn delete_history(&mut self, message_id: u64)
        requires
            old(self).wf(),
        ensures
            final(self).wf(),
            final(self)@.config == old(self)@.config,
            final(self)@.rows == remove_id(old(self)@.rows, message_id),
    {
        let ghost orig = self.rows@;
        let mut i: usize = 0;
        while i < self.rows.len()
            invariant
                *self == *old(self),
                orig == old(self).rows@,
                old(self).wf(),
                i <= orig.len(),
                forall|j: int| 0 <= j < i ==> orig[j].message_id != message_id,
            decreases orig.len() - i,
        {
            if self.rows[i].message_id == message_id {
                let _ = self.rows.remove(i);
                proof {
                    assert forall|j: int|
                        0 <= j < orig.len() && j != i implies orig[j].message_id
                        != message_id by {
                        if j > i {
                            assert(orig[i as int].message_id > orig[j].message_id);
                        }
                    }
                    lemma_remove_id_at(orig, message_id, i as int);
                    assert forall|a: int, b: int|
                        0 <= a < b < self.rows@.len() implies self.rows@[a].message_id
                        > self.rows@[b].message_id by {
                        assert(self.rows@[a] == orig.remove(i as int)[a]);
                        assert(self.rows@[b] == orig.remove(i as int)[b]);
                    }
                }
                return ;
            }
            i = i + 1;
        }
        proof {
            lemma_remove_id_absent(orig, message_id);
        }
    }
}

/// Removing identifiers one by one, front first, agrees with removing the
/// whole prefix at once.
pub proof fn lemma_remove_ids_take_step(rows: Seq<History>, ids: Seq<u64>, i: int)
    requires
        0 <= i < ids.len(),
    ensures
        remove_ids(rows, ids.take(i + 1)) == remove_id(remove_ids(rows, ids.take(i)), ids[i]),
    decreases i,
{
    if i == 0 {
        assert(ids.take(0) =~= Seq::<u64>::empty());
        assert(ids.take(1).drop_first() =~= Seq::<u64>::empty());
        assert(ids.take(1)[0] == ids[0]);
        assert(remove_ids(rows, ids.take(0)) == rows);
        assert(remove_ids(rows, ids.take(1)) == remove_ids(
            remove_id(rows, ids[0]),
            Seq::<u64>::empty(),
        ));
        assert(remove_ids(remove_id(rows, ids[0]), Seq::<u64>::empty()) == remove_id(
            rows,
            ids[0],
        ));
    } else {
        let rows2 = remove_id(rows, ids[0]);
        let rest = ids.drop_first();
        assert(ids.take(i + 1).drop_first() =~= rest.take(i));
        assert(ids.take(i).drop_first() =~= rest.take(i - 1));
        assert(ids.take(i + 1)[0] == ids[0]);
        assert(ids.take(i)[0] == ids[0]);
        lemma_remove_ids_take_step(rows2, rest, i - 1);
        assert(rest[i - 1] == ids[i]);
        assert(remove_ids(rows, ids.take(i + 1)) == remove_ids(rows2, rest.take(i)));
        assert(remove_ids(rows, ids.take(i)) == remove_ids(rows2, rest.take(i - 1)));
    }
}

proof fn lemma_remove_id_absent(rows: Seq<History>, id: u64)
    requires
        forall|j: int| 0 <= j < rows.len() ==> rows[j].message_id != id,
    ensures
        remove_id(rows, id) =~= rows,
    decreases rows.len(),
{
    if rows.len() > 0 {
        assert forall|j: int|
            0 <= j < rows.drop_first().len() implies rows.drop_first()[j].message_id != id by {
            assert(rows.drop_first()[j] == rows[j + 1]);
        }
        lemma_remove_id_absent(rows.drop_first(), id);
        assert(seq![rows[0]] + rows.drop_first() =~= rows);
    }
}

proof fn lemma_remove_id_at(rows: Seq<History>, id: u64, i: int)
    requires
        0 <= i < rows.len(),
        rows[i].message_id == id,
        forall|j: int| 0 <= j < rows.len() && j != i ==> rows[j].message_id != id,
    ensures
        remove_id(rows, id) =~= rows.remove(i),
    decreases i,
{
    let rest = rows.drop_first();
    if i == 0 {
        assert forall|j: int| 0 <= j < rest.len() implies rest[j].message_id != id by {
            assert(rest[j] == rows[j + 1]);
        }
        lemma_remove_id_absent(rest, id);
        assert(remove_id(rows, id) =~= rest);
        assert(rest =~= rows.remove(0));
    } else {
        assert(rest[i - 1] == rows[i]);
        assert forall|j: int|
            0 <= j < rest.len() && j != i - 1 implies rest[j].message_id != id by {
            assert(rest[j] == rows[j + 1]);
        }
        lemma_remove_id_at(rest, id, i - 1);
        assert(rows[0].message_id != id);
        assert(remove_id(rows, id) == seq![rows[0]] + remove_id(rest, id));
        assert(seq![rows[0]] + rest.remove(i - 1) =~= rows.remove(i));
    }
}

proof fn lemma_insert_desc_at(rows: Seq<History>, row: History, pos: int)
    requires
        0 <= pos <= rows.len(),
        forall|j: int| 0 <= j < pos ==> rows[j].message_id > row.message_id,
        pos < rows.len() ==> rows[pos].message_id < row.message_id,
    ensures
        insert_desc(rows, row) =~= rows.take(pos) + seq![row] + rows.skip(pos),
    decreases pos,
{
    if pos == 0 {
        if rows.len() > 0 {
            assert(rows[0].message_id < row.message_id);
            assert(insert_desc(rows, row) == seq![row] + rows);
            assert(seq![row] + rows =~= rows.take(0) + seq![row] + rows.skip(0));
        }
    } else {
        let rest = rows.drop_first();
        assert forall|j: int| 0 <= j < pos - 1 implies rest[j].message_id > row.message_id by {
            assert(rest[j] == rows[j + 1]);
        }
        if pos - 1 < rest.len() {
            assert(rest[pos - 1] == rows[pos]);
        }
        lemma_insert_desc_at(rest, row, pos - 1);
        assert(rows[0].message_id > row.message_id);
        assert(insert_desc(rows, row) == seq![rows[0]] + insert_desc(rest, row));
        assert(seq![rows[0]] + (rest.take(pos - 1) + seq![row] + rest.skip(pos - 1)) =~= rows.take(
            pos,
        ) + seq![row] + rows.skip(pos));
    }
}

} // verus!
