//! The local follow list: a set of streamer records keyed by their
//! upstream identity, reported sorted by login, with case-insensitive
//! removal. The surrounding application only persists what this store
//! holds.

use vstd::prelude::*;

use crate::resolver::TwitchUser;
use crate::text;

verus! {

/// One followed streamer as the store records it: the upstream identity
/// id, the login (`name`), and the display name.
#[derive(Debug, Clone)]
pub struct DbStreamer {
    pub id: String,
    pub name: String,
    pub display_name: String,
}

impl DbStreamer {
    /// An equal copy of the record.
    pub fn duplicate(&self) -> (r: DbStreamer)
        ensures
            r == *self,
    {
        DbStreamer {
            id: self.id.clone(),
            name: self.name.clone(),
            display_name: self.display_name.clone(),
        }
    }
}

/// Arguments of the follow command.
#[derive(Debug, Clone)]
pub struct FollowArgs {
    pub logins: Vec<String>,
    pub verbose: bool,
}

/// Arguments of the unfollow command.
#[derive(Debug, Clone)]
pub struct UnfollowArgs {
    pub logins: Vec<String>,
    pub verbose: bool,
}

/// No two records share an identity id.
pub open spec fn distinct_ids(rows: Seq<DbStreamer>) -> bool {
    forall|i: int, j: int| 0 <= i < j < rows.len() ==> rows[i].id@ != rows[j].id@
}

/// The index of the record with this id, scanning from the front.
pub open spec fn find_id(rows: Seq<DbStreamer>, id: Seq<char>) -> Option<int>
    decreases rows.len(),
{
    if rows.len() == 0 {
        None
    } else if rows.first().id@ == id {
        Some(0)
    } else {
        match find_id(rows.drop_first(), id) {
            Some(i) => Some(i + 1),
            None => None,
        }
    }
}

/// Some record's login, case-folded, equals `key`.
pub open spec fn has_name(rows: Seq<DbStreamer>, key: Seq<char>) -> bool {
    exists|i: int| 0 <= i < rows.len() && text::lowered(#[trigger] rows[i].name@) == key
}

/// The rows whose login, case-folded, differs from `key`: what a
/// case-insensitive removal of `key` leaves behind.
pub open spec fn rows_without(rows: Seq<DbStreamer>, key: Seq<char>) -> Seq<DbStreamer>
    decreases rows.len(),
{
    if rows.len() == 0 {
        Seq::empty()
    } else {
        let prev = rows_without(rows.drop_last(), key);
        if text::lowered(rows.last().name@) != key {
            prev.push(rows.last())
        } else {
            prev
        }
    }
}

/// Some requested login, case-folded, equals `key`.
pub open spec fn any_key(logins: Seq<String>, key: Seq<char>) -> bool {
    exists|i: int| 0 <= i < logins.len() && text::lowered(#[trigger] logins[i]@) == key
}

/// The rows left after removing every requested login, each compared
/// case-insensitively.
pub open spec fn rows_without_any(rows: Seq<DbStreamer>, logins: Seq<String>) -> Seq<DbStreamer>
    decreases rows.len(),
{
    if rows.len() == 0 {
        Seq::empty()
    } else {
        let prev = rows_without_any(rows.drop_last(), logins);
        if !any_key(logins, text::lowered(rows.last().name@)) {
            prev.push(rows.last())
        } else {
            prev
        }
    }
}

/// The requested logins that matched no stored record, first occurrence
/// of each distinct (case-folded) login only, in request order.
pub open spec fn missing_of(logins: Seq<String>, rows: Seq<DbStreamer>) -> Seq<String>
    decreases logins.len(),
{
    if logins.len() == 0 {
        Seq::empty()
    } else {
        let prev = missing_of(logins.drop_last(), rows);
        let key = text::lowered(logins.last()@);
        if any_key(logins.drop_last(), key) {
            prev
        } else if has_name(rows, key) {
            prev
        } else {
            prev.push(logins.last())
        }
    }
}

/// Records sorted by login, in lexicographic code-point order.
pub open spec fn sorted_by_name(rows: Seq<DbStreamer>) -> bool {
    forall|i: int, j: int|
        0 <= i < j < rows.len() ==> text::lex_le(#[trigger] rows[i].name@, #[trigger] rows[j].name@)
}

proof fn lemma_rows_without_member(rows: Seq<DbStreamer>, key: Seq<char>, x: DbStreamer)
    requires
        rows_without(rows, key).contains(x),
    ensures
        rows.contains(x),
    decreases rows.len(),
{
    if rows.len() > 0 {
        let prev = rows_without(rows.drop_last(), key);
        if text::lowered(rows.last().name@) != key && x == rows.last() {
            assert(rows[rows.len() - 1] == x);
        } else {
            assert(prev.contains(x)) by {
                if text::lowered(rows.last().name@) != key {
                    let j = choose|j: int|
                        0 <= j < prev.push(rows.last()).len() && prev.push(rows.last())[j] == x;
                    assert(prev[j] == x);
                }
            }
            lemma_rows_without_member(rows.drop_last(), key, x);
            let j = choose|j: int| 0 <= j < rows.drop_last().len() && rows.drop_last()[j] == x;
            assert(rows[j] == x);
        }
    }
}

proof fn lemma_distinct_rows_without(rows: Seq<DbStreamer>, key: Seq<char>)
    requires
        distinct_ids(rows),
    ensures
        distinct_ids(rows_without(rows, key)),
    decreases rows.len(),
{
    if rows.len() > 0 {
        assert(distinct_ids(rows.drop_last()));
        lemma_distinct_rows_without(rows.drop_last(), key);
        let prev = rows_without(rows.drop_last(), key);
        if text::lowered(rows.last().name@) != key {
            assert forall|i: int, j: int|
                0 <= i < j < prev.push(rows.last()).len() implies prev.push(
                rows.last(),
            )[i].id@ != prev.push(rows.last())[j].id@ by {
                if j == prev.len() {
                    assert(prev.push(rows.last())[i] == prev[i]);
                    assert(prev.contains(prev[i]));
                    lemma_rows_without_member(rows.drop_last(), key, prev[i]);
                    let k = choose|k: int|
                        0 <= k < rows.drop_last().len() && rows.drop_last()[k] == prev[i];
                    assert(rows[k] == prev[i]);
                    assert(rows[k].id@ != rows[rows.len() - 1].id@);
                } else {
                    assert(prev.push(rows.last())[i] == prev[i]);
                    assert(prev.push(rows.last())[j] == prev[j]);
                }
            }
        }
    }
}

proof fn lemma_rows_without_all_differ(rows: Seq<DbStreamer>, key: Seq<char>)
    ensures
        forall|i: int|
            0 <= i < rows_without(rows, key).len() ==> text::lowered(
                #[trigger] rows_without(rows, key)[i].name@,
            ) != key,
    decreases rows.len(),
{
    if rows.len() > 0 {
        lemma_rows_without_all_differ(rows.drop_last(), key);
        let prev = rows_without(rows.drop_last(), key);
        if text::lowered(rows.last().name@) != key {
            assert(forall|i: int| 0 <= i < prev.len() ==> prev.push(rows.last())[i] == prev[i]);
            assert(prev.push(rows.last())[prev.len() as int] == rows.last());
        }
    }
}

proof fn lemma_rows_without_fixed(rows: Seq<DbStreamer>, key: Seq<char>)
    requires
        forall|i: int| 0 <= i < rows.len() ==> text::lowered(#[trigger] rows[i].name@) != key,
    ensures
        rows_without(rows, key) == rows,
    decreases rows.len(),
{
    if rows.len() > 0 {
        assert(forall|i: int|
            0 <= i < rows.drop_last().len() ==> rows.drop_last()[i] == #[trigger] rows[i]);
        lemma_rows_without_fixed(rows.drop_last(), key);
        assert(rows_without(rows, key) =~= rows);
    } else {
        assert(rows_without(rows, key) =~= rows);
    }
}

/// Removing a login a second time removes nothing: what a
/// case-insensitive removal leaves holds no record of that login, so the
/// removed count of a repeated call is zero.
pub proof fn lemma_rows_without_idempotent(rows: Seq<DbStreamer>, key: Seq<char>)
    ensures
        rows_without(rows_without(rows, key), key) == rows_without(rows, key),
{
    lemma_rows_without_all_differ(rows, key);
    lemma_rows_without_fixed(rows_without(rows, key), key);
}

proof fn lemma_rows_without_any_member(rows: Seq<DbStreamer>, logins: Seq<String>, x: DbStreamer)
    requires
        rows_without_any(rows, logins).contains(x),
    ensures
        rows.contains(x),
    decreases rows.len(),
{
    if rows.len() > 0 {
        let prev = rows_without_any(rows.drop_last(), logins);
        if !any_key(logins, text::lowered(rows.last().name@)) && x == rows.last() {
            assert(rows[rows.len() - 1] == x);
        } else {
            assert(prev.contains(x)) by {
                if !any_key(logins, text::lowered(rows.last().name@)) {
                    let j = choose|j: int|
                        0 <= j < prev.push(rows.last()).len() && prev.push(rows.last())[j] == x;
                    assert(prev[j] == x);
                }
            }
            lemma_rows_without_any_member(rows.drop_last(), logins, x);
            let j = choose|j: int| 0 <= j < rows.drop_last().len() && rows.drop_last()[j] == x;
            assert(rows[j] == x);
        }
    }
}

proof fn lemma_distinct_rows_without_any(rows: Seq<DbStreamer>, logins: Seq<String>)
    requires
        distinct_ids(rows),
    ensures
        distinct_ids(rows_without_any(rows, logins)),
        rows_without_any(rows, logins).len() <= rows.len(),
    decreases rows.len(),
{
    if rows.len() > 0 {
        assert(distinct_ids(rows.drop_last()));
        lemma_distinct_rows_without_any(rows.drop_last(), logins);
        let prev = rows_without_any(rows.drop_last(), logins);
        if !any_key(logins, text::lowered(rows.last().name@)) {
            assert forall|i: int, j: int|
                0 <= i < j < prev.push(rows.last()).len() implies prev.push(
                rows.last(),
            )[i].id@ != prev.push(rows.last())[j].id@ by {
                if j == prev.len() {
                    assert(prev.push(rows.last())[i] == prev[i]);
                    assert(prev.contains(prev[i]));
                    lemma_rows_without_any_member(rows.drop_last(), logins, prev[i]);
                    let k = choose|k: int|
                        0 <= k < rows.drop_last().len() && rows.drop_last()[k] == prev[i];
                    assert(rows[k] == prev[i]);
                    assert(rows[k].id@ != rows[rows.len() - 1].id@);
                } else {
                    assert(prev.push(rows.last())[i] == prev[i]);
                    assert(prev.push(rows.last())[j] == prev[j]);
                }
            }
        }
    }
}

proof fn lemma_insert_to_multiset(s: Seq<DbStreamer>, pos: int, x: DbStreamer)
    requires
        0 <= pos <= s.len(),
    ensures
        s.insert(pos, x).to_multiset() =~= s.to_multiset().insert(x),
{
    broadcast use vstd::seq_lib::group_to_multiset_ensures;
    broadcast use vstd::multiset::group_multiset_axioms;

    assert(s.insert(pos, x) =~= s.take(pos).push(x) + s.skip(pos));
    assert(s =~= s.take(pos) + s.skip(pos));
    vstd::seq_lib::lemma_multiset_commutative(s.take(pos).push(x), s.skip(pos));
    vstd::seq_lib::lemma_multiset_commutative(s.take(pos), s.skip(pos));
    assert(s.take(pos).push(x).to_multiset() =~= s.take(pos).to_multiset().insert(x));
}

proof fn lemma_find_id_at(rows: Seq<DbStreamer>, i: int)
    requires
        0 <= i < rows.len(),
        forall|j: int| 0 <= j < i ==> rows[j].id@ != rows[i].id@,
    ensures
        find_id(rows, rows[i].id@) == Some(i),
    decreases i,
{
    if i > 0 {
        lemma_find_id_at(rows.drop_first(), i - 1);
        assert(forall|j: int| 0 <= j < i - 1 ==> rows.drop_first()[j] == #[trigger] rows[j + 1]);
        assert(rows.drop_first()[i - 1] == rows[i]);
    }
}

proof fn lemma_find_id_none(rows: Seq<DbStreamer>, id: Seq<char>)
    requires
        forall|j: int| 0 <= j < rows.len() ==> (#[trigger] rows[j].id@) != id,
    ensures
        find_id(rows, id) is None,
    decreases rows.len(),
{
    if rows.len() > 0 {
        assert(forall|j: int|
            0 <= j < rows.drop_first().len() ==> rows.drop_first()[j] == #[trigger] rows[j + 1]);
        lemma_find_id_none(rows.drop_first(), id);
    }
}

/// The in-memory follow list. Its invariant: no two records share an id.
#[derive(Debug)]
pub struct FollowStore {
    entries: Vec<DbStreamer>,
}

impl FollowStore {
    /// The stored records, in storage order.
    pub closed spec fn rows(self) -> Seq<DbStreamer> {
        self.entries@
    }

    /// The store's invariant.
    pub open spec fn wf(self) -> bool {
        distinct_ids(self.rows())
    }

    /// An empty follow list.
    pub fn new() -> (s: FollowStore)
        ensures
            s.wf(),
            s.rows() == Seq::<DbStreamer>::empty(),
    {
        let s = FollowStore { entries: Vec::new() };
        proof {
            assert(s.rows() =~= Seq::<DbStreamer>::empty());
        }
        s
    }

    /// How many records the store holds.
    pub fn count(&self) -> (n: usize)
        ensures
            n == self.rows().len(),
    {
        self.entries.len()
    }

    /// Inserts a resolved identity, or updates the record that already
    /// carries its id: login and display name are overwritten, the set of
    /// ids gains at most the new one.
    pub fn upsert_streamer(&mut self, user: &TwitchUser)
        requires
            old(self).wf(),
        ensures
            final(self).wf(),
            ({
                let entry = DbStreamer {
                    id: user.id,
                    name: user.login,
                    display_name: user.display_name,
                };
                match find_id(old(self).rows(), user.id@) {
                    Some(i) => final(self).rows() == old(self).rows().update(i, entry),
                    None => final(self).rows() == old(self).rows().push(entry),
                }
            }),
    {
        let ghost rows0 = old(self).rows();
        let n = self.entries.len();
        let mut i: usize = 0;
        while i < n
            invariant
                0 <= i <= n,
                n == self.entries@.len(),
                rows0 == old(self).rows(),
                self.entries@ == rows0,
                distinct_ids(rows0),
                forall|j: int| 0 <= j < i ==> (#[trigger] self.entries@[j].id@) != user.id@,
            decreases n - i,
        {
            if text::str_eq(self.entries[i].id.as_str(), user.id.as_str()) {
                proof {
                    assert(rows0[i as int].id@ == user.id@);
                    lemma_find_id_at(rows0, i as int);
                    assert(find_id(rows0, user.id@) == Some(i as int));
                }
                let entry = DbStreamer {
                    id: user.id.clone(),
                    name: user.login.clone(),
                    display_name: user.display_name.clone(),
                };
                let ghost ge = entry;
                self.entries.set(i, entry);
                proof {
                    assert(ge == (DbStreamer {
                        id: user.id,
                        name: user.login,
                        display_name: user.display_name,
                    }));
                    assert(self.entries@ == rows0.update(i as int, ge));
                    assert forall|a: int, b: int|
                        0 <= a < b < self.entries@.len() implies self.entries@[a].id@
                        != self.entries@[b].id@ by {
                        assert(ge.id@ == rows0[i as int].id@);
                        if a == i {
                            assert(self.entries@[b] == rows0[b]);
                        } else if b == i {
                            assert(self.entries@[a] == rows0[a]);
                        } else {
                            assert(self.entries@[a] == rows0[a]);
                            assert(self.entries@[b] == rows0[b]);
                        }
                    }
                }
                return;
            }
            i = i + 1;
        }
        proof {
            lemma_find_id_none(rows0, user.id@);
        }
        let entry = DbStreamer {
            id: user.id.clone(),
            name: user.login.clone(),
            display_name: user.display_name.clone(),
        };
        let ghost ge = entry;
        self.entries.push(entry);
        proof {
            assert(ge == (DbStreamer { id: user.id, name: user.login, display_name: user.display_name }));
            assert forall|a: int, b: int|
                0 <= a < b < self.entries@.len() implies self.entries@[a].id@
                != self.entries@[b].id@ by {
                if b == rows0.len() {
                    assert(self.entries@[a] == rows0[a]);
                    assert(self.entries@[b] == ge);
                } else {
                    assert(self.entries@[a] == rows0[a]);
                    assert(self.entries@[b] == rows0[b]);
                }
            }
        }
    }

    /// The records sorted by login: the same records (as a multiset), in
    /// lexicographic order.
    pub fn list_streamers(&self) -> (r: Vec<DbStreamer>)
        ensures
            r@.to_multiset() == self.rows().to_multiset(),
            sorted_by_name(r@),
    {
        let n = self.entries.len();
        let mut r: Vec<DbStreamer> = Vec::new();
        proof {
            broadcast use vstd::seq_lib::group_to_multiset_ensures;

            assert(self.rows().take(0int) =~= Seq::<DbStreamer>::empty());
            assert(r@ =~= Seq::<DbStreamer>::empty());
        }
        let mut i: usize = 0;
        while i < n
            invariant
                0 <= i <= n,
                n == self.entries@.len(),
                r@.to_multiset() == self.rows().take(i as int).to_multiset(),
                sorted_by_name(r@),
            decreases n - i,
        {
            let item = self.entries[i].duplicate();
            let rl = r.len();
            let mut pos: usize = 0;
            while pos < rl && text::str_le(r[pos].name.as_str(), item.name.as_str())
                invariant
                    0 <= pos <= rl,
                    rl == r@.len(),
                    forall|j: int| 0 <= j < pos ==> text::lex_le(#[trigger] r@[j].name@, item.name@),
                decreases rl - pos,
            {
                pos = pos + 1;
            }
            let ghost prev = r@;
            r.insert(pos, item);
            proof {
                broadcast use vstd::seq_lib::group_to_multiset_ensures;

                prev.insert_ensures(pos as int, item);
                if (pos as int) < prev.len() {
                    text::lemma_lex_total(prev[pos as int].name@, item.name@);
                }
                assert forall|a: int, b: int| 0 <= a < b < r@.len() implies text::lex_le(
                    #[trigger] r@[a].name@,
                    #[trigger] r@[b].name@,
                ) by {
                    if b < pos {
                    } else if a < pos && b == pos {
                    } else if a < pos && b > pos {
                        assert(r@[b] == prev[b - 1]);
                    } else if a == pos {
                        assert(r@[b] == prev[b - 1]);
                        if pos as int <= b - 1 && (pos as int) < prev.len() {
                            text::lemma_lex_trans(
                                item.name@,
                                prev[pos as int].name@,
                                prev[b - 1].name@,
                            );
                        }
                    } else {
                        assert(r@[a] == prev[a - 1]);
                        assert(r@[b] == prev[b - 1]);
                    }
                }
                lemma_insert_to_multiset(prev, pos as int, item);
                assert(self.rows().take(i + 1).drop_last() =~= self.rows().take(i as int));
                assert(self.rows().take(i + 1) =~= self.rows().take(i as int).push(
                    self.rows()[i as int],
                ));
            }
            i = i + 1;
        }
        proof {
            assert(self.rows().take(n as int) =~= self.rows());
        }
        r
    }

    /// Removes every record whose login equals the given one ignoring
    /// ASCII case, and reports how many were removed.
    pub fn delete_streamer_by_login(&mut self, login: &str) -> (removed: u64)
        requires
            old(self).wf(),
        ensures
            final(self).wf(),
            final(self).rows() == rows_without(old(self).rows(), text::lowered(login@)),
            removed as int == old(self).rows().len() - final(self).rows().len(),
    {
        let key = text::lower_str(login);
        let ghost rows0 = self.rows();
        let n = self.entries.len();
        let mut kept: Vec<DbStreamer> = Vec::new();
        proof {
            assert(rows0.take(0int) =~= Seq::<DbStreamer>::empty());
            assert(kept@ =~= rows_without(rows0.take(0int), key@));
        }
        let mut i: usize = 0;
        while i < n
            invariant
                0 <= i <= n,
                n == self.entries@.len(),
                rows0 == self.rows(),
                distinct_ids(rows0),
                key@ == text::lowered(login@),
                kept@ == rows_without(rows0.take(i as int), key@),
                kept@.len() <= i,
            decreases n - i,
        {
            let low = text::lower_str(self.entries[i].name.as_str());
            proof {
                assert(rows0.take(i + 1).drop_last() =~= rows0.take(i as int));
                assert(rows0.take(i + 1).last() == rows0[i as int]);
            }
            if !text::str_eq(low.as_str(), key.as_str()) {
                kept.push(self.entries[i].duplicate());
            }
            i = i + 1;
        }
        proof {
            assert(rows0.take(n as int) =~= rows0);
        }
        let removed = (n - kept.len()) as u64;
        self.entries = kept;
        proof {
            lemma_distinct_rows_without(rows0, key@);
        }
        removed
    }

    /// Unfollows each requested login once (later repetitions of the
    /// same login, compared case-insensitively, are skipped), reporting
    /// how many records were removed and which requested logins matched
    /// nothing.
    pub fn unfollow_many(&mut self, logins: &Vec<String>) -> (r: (u64, Vec<String>))
        requires
            old(self).wf(),
        ensures
            final(self).wf(),
            final(self).rows() == rows_without_any(old(self).rows(), logins@),
            r.0 as int == old(self).rows().len() - final(self).rows().len(),
            r.1@ == missing_of(logins@, old(self).rows()),
    {
        let ghost rows0 = self.rows();
        let nl = logins.len();
        let mut missing: Vec<String> = Vec::new();
        let mut seen: Vec<String> = Vec::new();
        proof {
            assert(missing@ =~= missing_of(logins@.take(0int), rows0));
            assert(seen@.len() == 0);
        }
        let mut i: usize = 0;
        while i < nl
            invariant
                0 <= i <= nl,
                nl == logins@.len(),
                rows0 == self.rows(),
                distinct_ids(rows0),
                missing@ == missing_of(logins@.take(i as int), rows0),
                forall|k: Seq<char>|
                    #[trigger] seen_contains(seen@, k) == any_key(logins@.take(i as int), k),
            decreases nl - i,
        {
            let key = text::lower_str(logins[i].as_str());
            proof {
                assert(logins@.take(i + 1).drop_last() =~= logins@.take(i as int));
                assert(logins@.take(i + 1).last() == logins@[i as int]);
            }
            let dup = contains_key_exec(&seen, &key);
            proof {
                assert(seen_contains(seen@, key@) == any_key(logins@.take(i as int), key@));
            }
            if !dup {
                let found = self.row_name_exists(&key);
                if !found {
                    missing.push(logins[i].clone());
                }
                let ghost prev_seen = seen@;
                seen.push(key);
                proof {
                    assert(seen@.drop_last() =~= prev_seen);
                    assert(seen@.last()@ == text::lowered(logins@[i as int]@));
                    assert forall|k: Seq<char>| #[trigger] seen_contains(seen@, k) == any_key(
                        logins@.take(i + 1),
                        k,
                    ) by {
                        lemma_seen_push(seen@, logins@, i as int, k);
                    }
                }
            } else {
                proof {
                    assert forall|k: Seq<char>| #[trigger] seen_contains(seen@, k) == any_key(
                        logins@.take(i + 1),
                        k,
                    ) by {
                        lemma_seen_same(seen@, logins@, i as int, k);
                    }
                }
            }
            i = i + 1;
        }
        proof {
            assert(logins@.take(nl as int) =~= logins@);
        }
        let before = self.entries.len();
        self.remove_all_keys(logins);
        let after = self.entries.len();
        let removed = (before - after) as u64;
        (removed, missing)
    }

    fn row_name_exists(&self, key: &String) -> (r: bool)
        ensures
            r == has_name(self.rows(), key@),
    {
        let n = self.entries.len();
        let mut i: usize = 0;
        while i < n
            invariant
                0 <= i <= n,
                n == self.entries@.len(),
                forall|j: int|
                    0 <= j < i ==> text::lowered(#[trigger] self.entries@[j].name@) != key@,
            decreases n - i,
        {
            let low = text::lower_str(self.entries[i].name.as_str());
            if text::str_eq(low.as_str(), key.as_str()) {
                return true;
            }
            i = i + 1;
        }
        false
    }

    fn remove_all_keys(&mut self, logins: &Vec<String>)
        requires
            old(self).wf(),
        ensures
            final(self).wf(),
            final(self).rows() == rows_without_any(old(self).rows(), logins@),
            final(self).rows().len() <= old(self).rows().len(),
    {
        let ghost rows0 = self.rows();
        let n = self.entries.len();
        let mut kept: Vec<DbStreamer> = Vec::new();
        proof {
            assert(rows0.take(0int) =~= Seq::<DbStreamer>::empty());
            assert(kept@ =~= rows_without_any(rows0.take(0int), logins@));
        }
        let mut i: usize = 0;
        while i < n
            invariant
                0 <= i <= n,
                n == self.entries@.len(),
                rows0 == self.rows(),
                distinct_ids(rows0),
                kept@ == rows_without_any(rows0.take(i as int), logins@),
                kept@.len() <= i,
            decreases n - i,
        {
            let low = text::lower_str(self.entries[i].name.as_str());
            proof {
                assert(rows0.take(i + 1).drop_last() =~= rows0.take(i as int));
                assert(rows0.take(i + 1).last() == rows0[i as int]);
            }
            let hit = any_key_exec(logins, &low);
            if !hit {
                kept.push(self.entries[i].duplicate());
            }
            i = i + 1;
        }
        proof {
            assert(rows0.take(n as int) =~= rows0);
        }
        self.entries = kept;
        proof {
            lemma_distinct_rows_without_any(rows0, logins@);
        }
    }
}

/// `keys` holds `k` itself (keys are already case-folded).
pub open spec fn seen_contains(keys: Seq<String>, k: Seq<char>) -> bool {
    exists|i: int| 0 <= i < keys.len() && (#[trigger] keys[i]@) == k
}

fn contains_key_exec(keys: &Vec<String>, k: &String) -> (r: bool)
    ensures
        r == seen_contains(keys@, k@),
{
    let n = keys.len();
    let mut i: usize = 0;
    while i < n
        invariant
            0 <= i <= n,
            n == keys@.len(),
            forall|j: int| 0 <= j < i ==> (#[trigger] keys@[j]@) != k@,
        decreases n - i,
    {
        if text::str_eq(keys[i].as_str(), k.as_str()) {
            return true;
        }
        i = i + 1;
    }
    false
}

fn any_key_exec(logins: &Vec<String>, k: &String) -> (r: bool)
    ensures
        r == any_key(logins@, k@),
{
    let n = logins.len();
    let mut i: usize = 0;
    while i < n
        invariant
            0 <= i <= n,
            n == logins@.len(),
            forall|j: int| 0 <= j < i ==> text::lowered(#[trigger] logins@[j]@) != k@,
        decreases n - i,
    {
        let low = text::lower_str(logins[i].as_str());
        if text::str_eq(low.as_str(), k.as_str()) {
            return true;
        }
        i = i + 1;
    }
    false
}

proof fn lemma_seen_push(seen: Seq<String>, logins: Seq<String>, i: int, k: Seq<char>)
    requires
        0 <= i < logins.len(),
        seen.len() > 0,
        seen.last()@ == text::lowered(logins[i]@),
        forall|kk: Seq<char>|
            #[trigger] seen_contains(seen.drop_last(), kk) == any_key(logins.take(i), kk),
    ensures
        seen_contains(seen, k) == any_key(logins.take(i + 1), k),
{
    assert(logins.take(i + 1).drop_last() =~= logins.take(i));
    assert(logins.take(i + 1).last() == logins[i]);
    if seen_contains(seen, k) {
        let j = choose|j: int| 0 <= j < seen.len() && (#[trigger] seen[j]@) == k;
        if j < seen.len() - 1 {
            assert(seen.drop_last()[j]@ == k);
            assert(seen_contains(seen.drop_last(), k));
            let m = choose|m: int|
                0 <= m < logins.take(i).len() && text::lowered(
                    #[trigger] logins.take(i)[m]@,
                ) == k;
            assert(text::lowered(logins.take(i + 1)[m]@) == k);
        } else {
            assert(text::lowered(logins.take(i + 1)[i]@) == k);
        }
    }
    if any_key(logins.take(i + 1), k) {
        let m = choose|m: int|
            0 <= m < logins.take(i + 1).len() && text::lowered(
                #[trigger] logins.take(i + 1)[m]@,
            ) == k;
        if m < i {
            assert(text::lowered(logins.take(i)[m]@) == k);
            assert(any_key(logins.take(i), k));
            assert(seen_contains(seen.drop_last(), k));
            let j = choose|j: int| 0 <= j < seen.drop_last().len() && (#[trigger] seen.drop_last(
            )[j]@) == k;
            assert(seen[j]@ == k);
        } else {
            assert(seen[seen.len() - 1]@ == k);
        }
    }
}

proof fn lemma_seen_same(seen: Seq<String>, logins: Seq<String>, i: int, k: Seq<char>)
    requires
        0 <= i < logins.len(),
        seen_contains(seen, text::lowered(logins[i]@)),
        forall|kk: Seq<char>| #[trigger] seen_contains(seen, kk) == any_key(logins.take(i), kk),
    ensures
        seen_contains(seen, k) == any_key(logins.take(i + 1), k),
{
    assert(logins.take(i + 1).drop_last() =~= logins.take(i));
    if any_key(logins.take(i + 1), k) {
        let m = choose|m: int|
            0 <= m < logins.take(i + 1).len() && text::lowered(
                #[trigger] logins.take(i + 1)[m]@,
            ) == k;
        if m < i {
            assert(text::lowered(logins.take(i)[m]@) == k);
            assert(any_key(logins.take(i), k));
        } else {
            assert(k == text::lowered(logins[i]@));
        }
    }
    if seen_contains(seen, k) {
        assert(any_key(logins.take(i), k));
        let m = choose|m: int|
            0 <= m < logins.take(i).len() && text::lowered(#[trigger] logins.take(i)[m]@) == k;
        assert(text::lowered(logins.take(i + 1)[m]@) == k);
    }
}

} // verus!
