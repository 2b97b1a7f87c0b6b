//! The drain path: recovering a bucket's owner and day from its cache key,
//! per-key retry bookkeeping, and the flush state machine that a drain cycle
//! runs for each discovered bucket.
//!
//! The surrounding process owns the timer loop and performs the store and
//! file I/O; every decision a cycle takes is a function here.
use vstd::prelude::*;
use vstd::string::*;

use crate::file_redis_layer::spec_path_for_day;
use crate::record::{match_lit, spec_match_lit};
use crate::text::{
    chars_to_string, parse_u64_str, spec_all_digits, spec_dec_val, str_eq, str_to_chars,
};
use crate::types::AppError;

verus! {

/// The pieces of `s` between occurrences of `sep`: one more piece than there
/// are separators, empty pieces kept.
pub open spec fn spec_split(s: Seq<char>, sep: char) -> Seq<Seq<char>>
    decreases s.len(),
{
    if s.len() == 0 {
        seq![Seq::<char>::empty()]
    } else if s[0] == sep {
        seq![Seq::<char>::empty()] + spec_split(s.skip(1), sep)
    } else {
        let rest = spec_split(s.skip(1), sep);
        seq![seq![s[0]] + rest[0]] + rest.skip(1)
    }
}

/// A split always yields at least one piece.
pub proof fn lemma_split_len(s: Seq<char>, sep: char)
    ensures
        spec_split(s, sep).len() >= 1,
    decreases s.len(),
{
    if s.len() > 0 {
        lemma_split_len(s.skip(1), sep);
    }
}

/// The first piece of a split, extended at the front by already-read text.
pub open spec fn spec_prepend_first(p: Seq<char>, pieces: Seq<Seq<char>>) -> Seq<Seq<char>> {
    seq![p + pieces[0]] + pieces.skip(1)
}

/// Split `s` at every occurrence of `sep`.
pub fn split_char(s: &str, sep: char) -> (parts: Vec<String>)
    ensures
        parts.deep_view() == spec_split(s@, sep),
{
    let chars = str_to_chars(s);
    let mut parts: Vec<String> = Vec::new();
    let mut cur: Vec<char> = Vec::new();
    let mut i: usize = 0;
    proof {
        assert(chars@.skip(0) =~= chars@);
        lemma_split_len(s@, sep);
        assert(parts.deep_view() =~~= Seq::<Seq<char>>::empty());
        assert(Seq::<char>::empty() + spec_split(s@, sep)[0] =~= spec_split(s@, sep)[0]);
        assert(spec_prepend_first(Seq::<char>::empty(), spec_split(s@, sep)) =~~= spec_split(
            s@,
            sep,
        ));
        assert(parts.deep_view() + spec_split(s@, sep) =~~= spec_split(s@, sep));
    }
    while i < chars.len()
        invariant
            i <= chars@.len(),
            chars@ == s@,
            spec_split(s@, sep) == parts.deep_view() + spec_prepend_first(
                cur@,
                spec_split(chars@.skip(i as int), sep),
            ),
        decreases chars@.len() - i,
    {
        let ghost tail = chars@.skip(i as int);
        let ghost rest = spec_split(chars@.skip(i + 1 as int), sep);
        proof {
            assert(tail[0] == chars@[i as int]);
            assert(tail.skip(1) =~= chars@.skip(i + 1 as int));
            lemma_split_len(chars@.skip(i + 1 as int), sep);
        }
        let c = chars[i];
        if c == sep {
            let piece = chars_to_string(&cur);
            let ghost parts_old = parts.deep_view();
            parts.push(piece);
            cur = Vec::new();
            proof {
                assert(parts.deep_view() =~~= parts_old + seq![piece@]);
                assert(spec_split(tail, sep) == seq![Seq::<char>::empty()] + rest);
                assert((seq![Seq::<char>::empty()] + rest)[0] == Seq::<char>::empty());
                assert((seq![Seq::<char>::empty()] + rest).skip(1) =~~= rest);
                assert(piece@ + Seq::<char>::empty() =~= piece@);
                assert(spec_prepend_first(piece@, spec_split(tail, sep)) =~~= seq![piece@] + rest);
                assert(cur@ + rest[0] =~= rest[0]);
                assert(seq![rest[0]] + rest.skip(1) =~~= rest);
                assert(spec_prepend_first(cur@, rest) =~~= rest);
                assert((parts_old + seq![piece@]) + rest =~~= parts_old + (seq![piece@] + rest));
            }
        } else {
            let ghost cur_old = cur@;
            cur.push(c);
            proof {
                assert(spec_split(tail, sep) == seq![seq![c] + rest[0]] + rest.skip(1));
                assert((seq![seq![c] + rest[0]] + rest.skip(1))[0] == seq![c] + rest[0]);
                assert((seq![seq![c] + rest[0]] + rest.skip(1)).skip(1) =~~= rest.skip(1));
                assert(cur@ =~= cur_old + seq![c]);
                assert(cur_old + (seq![c] + rest[0]) =~= cur@ + rest[0]);
                assert(spec_prepend_first(cur_old, spec_split(tail, sep)) =~~= spec_prepend_first(
                    cur@,
                    rest,
                ));
            }
        }
        i = i + 1;
    }
    proof {
        assert(chars@.skip(chars@.len() as int) =~= Seq::<char>::empty());
        assert(spec_split(Seq::<char>::empty(), sep) == seq![Seq::<char>::empty()]);
        assert(cur@ + Seq::<char>::empty() =~= cur@);
        assert((seq![cur@ + Seq::<char>::empty()] + seq![Seq::<char>::empty()].skip(1)) =~~= seq![
            cur@,
        ]);
        assert(spec_prepend_first(cur@, seq![Seq::<char>::empty()]) =~~= seq![cur@]);
    }
    let ghost parts_old = parts.deep_view();
    let last = chars_to_string(&cur);
    parts.push(last);
    proof {
        assert(parts.deep_view() =~~= parts_old + seq![cur@]);
    }
    parts
}

/// `s` without a leading `user_` marker; unmarked input is kept whole.
pub open spec fn spec_strip_user_prefix(s: Seq<char>) -> Seq<char> {
    match spec_match_lit(s, "user_"@) {
        Some(rest) => rest,
        None => s,
    }
}

/// Strip the `user_` marker from a key's user piece, as the drain path does
/// before deriving the file path.
pub fn strip_user_prefix(s: &str) -> (r: String)
    ensures
        r@ == spec_strip_user_prefix(s@),
{
    let chars = str_to_chars(s);
    proof {
        assert(chars@.skip(0) =~= chars@);
    }
    match match_lit(&chars, 0, "user_") {
        Some(next) => {
            let mut rest: Vec<char> = Vec::new();
            let mut i: usize = next;
            while i < chars.len()
                invariant
                    next <= i <= chars@.len(),
                    rest@ == chars@.subrange(next as int, i as int),
                decreases chars@.len() - i,
            {
                let c = chars[i];
                proof {
                    assert(chars@.subrange(next as int, i as int).push(chars@[i as int])
                        =~= chars@.subrange(next as int, i + 1 as int));
                }
                rest.push(c);
                i = i + 1;
            }
            proof {
                assert(chars@.subrange(next as int, chars@.len() as int) =~= chars@.skip(
                    next as int,
                ));
            }
            chars_to_string(&rest)
        },
        None => s.to_owned(),
    }
}

/// A bucket key parsed back into its owner and day.
#[derive(Debug)]
pub struct DrainKey {
    pub user_id: String,
    pub day: u64,
}

/// How a bucket key reads back: exactly three `:`-separated pieces, the last
/// a day index that fits an unsigned 64-bit number; the middle piece names
/// the user, its `user_` marker stripped.
pub open spec fn spec_parse_drain_key(key: Seq<char>) -> Option<(Seq<char>, u64)> {
    let parts = spec_split(key, ':');
    if parts.len() != 3 {
        None
    } else {
        let digits = parts[2];
        if digits.len() >= 1 && spec_all_digits(digits) && spec_dec_val(digits) <= u64::MAX {
            Some((spec_strip_user_prefix(parts[1]), spec_dec_val(digits) as u64))
        } else {
            None
        }
    }
}

/// The message a malformed bucket key is rejected with: the piece count is
/// checked first, the day index second.
pub open spec fn spec_drain_key_error(key: Seq<char>) -> Seq<char> {
    if spec_split(key, ':').len() != 3 {
        "Invalid key format"@
    } else {
        "Invalid days format"@
    }
}

/// Parse a bucket key met during a drain. A key that does not have the
/// expected shape is malformed input, never silently drained.
pub fn parse_drain_key(key: &str) -> (r: Result<DrainKey, AppError>)
    ensures
        r is Ok ==> spec_parse_drain_key(key@) == Some((r->Ok_0.user_id@, r->Ok_0.day)),
        r is Err ==> spec_parse_drain_key(key@) is None && r->Err_0@
            == crate::types::AppErrorView::JsonParseError(spec_drain_key_error(key@)),
{
    let parts = split_char(key, ':');
    proof {
        assert(parts@.len() == parts.deep_view().len());
    }
    if parts.len() != 3 {
        let mut msg = String::new();
        msg.append("Invalid key format");
        return Err(AppError::JsonParseError(msg));
    }
    proof {
        assert(parts@[1]@ == parts.deep_view()[1]);
        assert(parts@[2]@ == parts.deep_view()[2]);
    }
    let user_id = strip_user_prefix(parts[1].as_str());
    match parse_u64_str(parts[2].as_str()) {
        Some(day) => Ok(DrainKey { user_id, day }),
        None => {
            let mut msg = String::new();
            msg.append("Invalid days format");
            Err(AppError::JsonParseError(msg))
        },
    }
}

/// The count recorded for `key` in an entry list: the first matching entry
/// speaks.
pub open spec fn spec_lookup(entries: Seq<(String, u32)>, key: Seq<char>) -> Option<u32>
    decreases entries.len(),
{
    if entries.len() == 0 {
        None
    } else if entries[0].0@ == key {
        Some(entries[0].1)
    } else {
        spec_lookup(entries.skip(1), key)
    }
}

/// `entries` with every entry for `key` dropped.
pub open spec fn spec_drop_key(entries: Seq<(String, u32)>, key: Seq<char>) -> Seq<(String, u32)>
    decreases entries.len(),
{
    if entries.len() == 0 {
        Seq::empty()
    } else if entries[0].0@ == key {
        spec_drop_key(entries.skip(1), key)
    } else {
        seq![entries[0]] + spec_drop_key(entries.skip(1), key)
    }
}

/// Dropping a key removes its count and touches no other key.
pub proof fn lemma_drop_key(entries: Seq<(String, u32)>, key: Seq<char>, k: Seq<char>)
    ensures
        spec_lookup(spec_drop_key(entries, key), key) is None,
        k != key ==> spec_lookup(spec_drop_key(entries, key), k) == spec_lookup(entries, k),
    decreases entries.len(),
{
    if entries.len() > 0 {
        lemma_drop_key(entries.skip(1), key, k);
        if entries[0].0@ != key {
            let d = seq![entries[0]] + spec_drop_key(entries.skip(1), key);
            assert(d[0] == entries[0]);
            assert(d.skip(1) =~= spec_drop_key(entries.skip(1), key));
        }
    }
}

/// Looking a key up after appending one entry: an existing count wins, else
/// the new entry speaks for its own key.
pub proof fn lemma_lookup_append(entries: Seq<(String, u32)>, x: (String, u32), k: Seq<char>)
    ensures
        spec_lookup(entries + seq![x], k) == (if spec_lookup(entries, k) is Some {
            spec_lookup(entries, k)
        } else if x.0@ == k {
            Some(x.1)
        } else {
            None
        }),
    decreases entries.len(),
{
    if entries.len() == 0 {
        assert(entries + seq![x] =~= seq![x]);
        assert(seq![x][0] == x);
        assert(seq![x].skip(1) =~= Seq::<(String, u32)>::empty());
        assert(spec_lookup(Seq::<(String, u32)>::empty(), k) is None);
    } else {
        lemma_lookup_append(entries.skip(1), x, k);
        assert((entries + seq![x])[0] == entries[0]);
        assert((entries + seq![x]).skip(1) =~= entries.skip(1) + seq![x]);
    }
}

/// A key is among an entry list's keys exactly when it has a count.
pub proof fn lemma_lookup_key_seq(entries: Seq<(String, u32)>, k: Seq<char>)
    ensures
        spec_key_seq(entries).contains(k) <==> spec_lookup(entries, k) is Some,
    decreases entries.len(),
{
    if entries.len() > 0 {
        lemma_lookup_key_seq(entries.skip(1), k);
        assert(spec_key_seq(entries)[0] == entries[0].0@);
        assert(spec_key_seq(entries).skip(1) =~= spec_key_seq(entries.skip(1)));
        if spec_lookup(entries, k) is Some {
            if entries[0].0@ == k {
                assert(spec_key_seq(entries)[0] == k);
            } else {
                let i = choose|i: int|
                    0 <= i < spec_key_seq(entries.skip(1)).len() && spec_key_seq(entries.skip(1))[i]
                        == k;
                assert(spec_key_seq(entries)[i + 1] == k);
            }
        }
        if spec_key_seq(entries).contains(k) {
            let i = choose|i: int| 0 <= i < spec_key_seq(entries).len() && spec_key_seq(entries)[i] == k;
            if i > 0 {
                assert(spec_key_seq(entries.skip(1))[i - 1] == k);
            }
        }
    }
}

/// The keys of an entry list, in entry order.
pub open spec fn spec_key_seq(entries: Seq<(String, u32)>) -> Seq<Seq<char>> {
    entries.map_values(|e: (String, u32)| e.0@)
}

/// The consecutive-failure count after one more failure.
pub open spec fn spec_next_count(old_count: Option<u32>) -> u32 {
    match old_count {
        None => 1,
        Some(c) => if c == u32::MAX {
            c
        } else {
            (c + 1) as u32
        },
    }
}

/// Per-cycle bookkeeping of consecutive flush failures, keyed by bucket key.
///
/// The tracker lives only in the draining process's memory: a restart resets
/// every count, and a dead-lettered bucket is naturally rediscovered by the
/// next cycle's enumeration.
pub struct RetryTracker {
    entries: Vec<(String, u32)>,
}

impl RetryTracker {
    /// The consecutive-failure count on record for `key`, if any.
    pub closed spec fn spec_count(&self, key: Seq<char>) -> Option<u32> {
        spec_lookup(self.entries@, key)
    }

    /// The keys with a count on record, in first-failure order.
    pub closed spec fn spec_keys(&self) -> Seq<Seq<char>> {
        spec_key_seq(self.entries@)
    }

    /// A fresh tracker holds no counts.
    pub fn new() -> (t: RetryTracker)
        ensures
            forall|k: Seq<char>| t.spec_count(k) is None,
    {
        RetryTracker { entries: Vec::new() }
    }

    /// Find the position of `key`'s entry.
    fn find(&self, key: &str) -> (r: Option<usize>)
        ensures
            match r {
                Some(i) => {
                    &&& i < self.entries@.len()
                    &&& self.entries@[i as int].0@ == key@
                    &&& self.spec_count(key@) == Some(self.entries@[i as int].1)
                },
                None => self.spec_count(key@) is None,
            },
    {
        let mut i: usize = 0;
        proof {
            assert(self.entries@.skip(0) =~= self.entries@);
        }
        while i < self.entries.len()
            invariant
                i <= self.entries@.len(),
                spec_lookup(self.entries@, key@) == spec_lookup(
                    self.entries@.skip(i as int),
                    key@,
                ),
            decreases self.entries@.len() - i,
        {
            let ghost tail = self.entries@.skip(i as int);
            proof {
                assert(tail[0] == self.entries@[i as int]);
                assert(tail.skip(1) =~= self.entries@.skip(i + 1 as int));
            }
            if str_eq(self.entries[i].0.as_str(), key) {
                return Some(i);
            }
            i = i + 1;
        }
        proof {
            assert(self.entries@.skip(self.entries@.len() as int) =~= Seq::<(String, u32)>::empty());
        }
        None
    }

    /// Whether `key` is still within its retry budget: yes while fewer than
    /// `max_retries` consecutive failures are on record.
    pub fn should_retry(&self, key: &str, max_retries: u32) -> (r: bool)
        ensures
            r == match self.spec_count(key@) {
                None => true,
                Some(c) => c < max_retries,
            },
    {
        match self.find(key) {
            None => true,
            Some(i) => self.entries[i].1 < max_retries,
        }
    }

    /// Record one more consecutive failure for `key` and return the new
    /// count. A count at the limit of its type stays there.
    pub fn increment(&mut self, key: &str) -> (count: u32)
        ensures
            count == spec_next_count(old(self).spec_count(key@)),
            final(self).spec_count(key@) == Some(count),
            forall|k: Seq<char>| k != key@ ==> final(self).spec_count(k) == old(self).spec_count(
                k,
            ),
    {
        let old_count = match self.find(key) {
            None => None,
            Some(i) => Some(self.entries[i].1),
        };
        let count: u32 = match old_count {
            None => 1,
            Some(c) => if c == u32::MAX {
                c
            } else {
                c + 1
            },
        };
        self.remove_entries(key);
        let ghost dropped = self.entries@;
        let owned = key.to_owned();
        self.entries.push((owned, count));
        proof {
            assert(self.entries@ =~= dropped + seq![(owned, count)]);
            assert forall|k: Seq<char>| true implies spec_lookup(self.entries@, k) == (
            if spec_lookup(dropped, k) is Some {
                spec_lookup(dropped, k)
            } else if k == key@ {
                Some(count)
            } else {
                None
            }) by {
                lemma_lookup_append(dropped, (owned, count), k);
            }
            assert forall|k: Seq<char>| true implies (if k == key@ {
                spec_lookup(dropped, k) is None
            } else {
                spec_lookup(dropped, k) == spec_lookup(old(self).entries@, k)
            }) by {
                lemma_drop_key(old(self).entries@, key@, k);
            }
        }
        count
    }

    /// Forget `key`'s failure history, restoring its full retry budget.
    pub fn reset(&mut self, key: &str)
        ensures
            final(self).spec_count(key@) is None,
            forall|k: Seq<char>| k != key@ ==> final(self).spec_count(k) == old(self).spec_count(
                k,
            ),
    {
        self.remove_entries(key);
        proof {
            assert forall|k: Seq<char>| true implies (if k == key@ {
                spec_lookup(self.entries@, k) is None
            } else {
                spec_lookup(self.entries@, k) == spec_lookup(old(self).entries@, k)
            }) by {
                lemma_drop_key(old(self).entries@, key@, k);
            }
        }
    }

    /// Drop every entry recorded for `key`.
    fn remove_entries(&mut self, key: &str)
        ensures
            final(self).entries@ == spec_drop_key(old(self).entries@, key@),
    {
        let mut kept: Vec<(String, u32)> = Vec::new();
        let mut i: usize = 0;
        proof {
            assert(self.entries@.skip(0) =~= self.entries@);
            assert(kept@ + spec_drop_key(self.entries@, key@) =~= spec_drop_key(
                self.entries@,
                key@,
            ));
        }
        while i < self.entries.len()
            invariant
                i <= self.entries@.len(),
                self.entries@ == old(self).entries@,
                spec_drop_key(self.entries@, key@) == kept@ + spec_drop_key(
                    self.entries@.skip(i as int),
                    key@,
                ),
            decreases self.entries@.len() - i,
        {
            let ghost tail = self.entries@.skip(i as int);
            proof {
                assert(tail[0] == self.entries@[i as int]);
                assert(tail.skip(1) =~= self.entries@.skip(i + 1 as int));
            }
            let keep = !str_eq(self.entries[i].0.as_str(), key);
            if keep {
                let entry = (self.entries[i].0.clone(), self.entries[i].1);
                let ghost kept_old = kept@;
                kept.push(entry);
                proof {
                    assert(entry == tail[0]);
                    assert(kept@ =~= kept_old + seq![tail[0]]);
                    assert(spec_drop_key(tail, key@) == seq![tail[0]] + spec_drop_key(
                        self.entries@.skip(i + 1 as int),
                        key@,
                    ));
                    assert(kept_old + (seq![tail[0]] + spec_drop_key(
                        self.entries@.skip(i + 1 as int),
                        key@,
                    )) =~= kept@ + spec_drop_key(self.entries@.skip(i + 1 as int), key@));
                }
            }
            i = i + 1;
        }
        proof {
            assert(self.entries@.skip(self.entries@.len() as int) =~= Seq::<(String, u32)>::empty());
            assert(kept@ + Seq::<(String, u32)>::empty() =~= kept@);
        }
        self.entries = kept;
    }

    /// The keys with a failure count on record, in first-failure order: the
    /// candidates for the cycle's single retry pass.
    pub fn get_failed_keys(&self) -> (keys: Vec<String>)
        ensures
            keys.deep_view() == self.spec_keys(),
            forall|k: Seq<char>| keys.deep_view().contains(k) <==> self.spec_count(k) is Some,
    {
        let mut keys: Vec<String> = Vec::new();
        let mut i: usize = 0;
        while i < self.entries.len()
            invariant
                i <= self.entries@.len(),
                keys.deep_view() == spec_key_seq(self.entries@).take(i as int),
            decreases self.entries@.len() - i,
        {
            let ghost keys_old = keys.deep_view();
            let k = self.entries[i].0.clone();
            keys.push(k);
            proof {
                assert(k@ == self.entries@[i as int].0@);
                assert(keys.deep_view() =~~= keys_old.push(k@));
                assert(spec_key_seq(self.entries@).take(i as int).push(
                    spec_key_seq(self.entries@)[i as int],
                ) =~~= spec_key_seq(self.entries@).take(i + 1 as int));
            }
            i = i + 1;
        }
        proof {
            assert(spec_key_seq(self.entries@).take(self.entries@.len() as int) =~~= spec_key_seq(
                self.entries@,
            ));
            assert forall|k: Seq<char>| true implies (keys.deep_view().contains(k)
                <==> self.spec_count(k) is Some) by {
                lemma_lookup_key_seq(self.entries@, k);
            }
        }
        keys
    }
}

/// A piece holding no separator splits to itself alone.
pub proof fn lemma_split_no_sep(s: Seq<char>, sep: char)
    requires
        forall|i: int| 0 <= i < s.len() ==> s[i] != sep,
    ensures
        spec_split(s, sep) == seq![s],
    decreases s.len(),
{
    if s.len() == 0 {
        assert(s =~= Seq::<char>::empty());
    } else {
        lemma_split_no_sep(s.skip(1), sep);
        assert(seq![s.skip(1)][0] == s.skip(1));
        assert(seq![s.skip(1)].skip(1) =~~= Seq::<Seq<char>>::empty());
        assert(seq![s[0]] + s.skip(1) =~= s);
        assert(spec_split(s, sep) =~~= seq![s]);
    }
}

/// A split cuts at the first separator: what stands before it is the first
/// piece, and the rest splits on its own.
pub proof fn lemma_split_at_sep(a: Seq<char>, b: Seq<char>, sep: char)
    requires
        forall|i: int| 0 <= i < a.len() ==> a[i] != sep,
    ensures
        spec_split(a + seq![sep] + b, sep) == seq![a] + spec_split(b, sep),
    decreases a.len(),
{
    let t = a + seq![sep] + b;
    if a.len() == 0 {
        assert(t =~= seq![sep] + b);
        assert(t[0] == sep);
        assert(t.skip(1) =~= b);
        assert(a =~= Seq::<char>::empty());
        assert(spec_split(t, sep) =~~= seq![a] + spec_split(b, sep));
    } else {
        lemma_split_at_sep(a.skip(1), b, sep);
        assert(t[0] == a[0]);
        assert(t.skip(1) =~= a.skip(1) + seq![sep] + b);
        let rest = spec_split(t.skip(1), sep);
        assert(rest == seq![a.skip(1)] + spec_split(b, sep));
        assert(rest[0] == a.skip(1));
        assert(rest.skip(1) =~~= spec_split(b, sep));
        assert(seq![a[0]] + a.skip(1) =~= a);
        assert(spec_split(t, sep) =~~= seq![a] + spec_split(b, sep));
    }
}

/// Parsing inverts building: the cache key built for a user (whose name
/// holds no `:`) and a day reads back as exactly that user and day, so the
/// drain path files a bucket under the same user and day the ingestion path
/// buffered it for.
pub proof fn lemma_parse_inverts_key(user_id: Seq<char>, day: u64)
    requires
        forall|i: int| 0 <= i < user_id.len() ==> user_id[i] != ':',
    ensures
        spec_parse_drain_key(crate::file_redis_layer::spec_key_for_day(user_id, day)) == Some(
            (user_id, day),
        ),
{
    reveal_strlit("logs:user_");
    reveal_strlit("logs");
    reveal_strlit("user_");
    reveal_strlit(":");
    let key = crate::file_redis_layer::spec_key_for_day(user_id, day);
    let dig = crate::text::spec_dec_digits(day as int);
    crate::text::lemma_dec_digits_val(day as int);
    let mid = "user_"@ + user_id;
    assert(":"@ =~= seq![':']);
    assert(key =~= "logs"@ + seq![':'] + (mid + seq![':'] + dig));
    assert(forall|i: int| 0 <= i < "logs"@.len() ==> "logs"@[i] != ':');
    assert forall|i: int| 0 <= i < mid.len() implies mid[i] != ':' by {
        if i < 5 {
            assert(mid[i] == "user_"@[i]);
        } else {
            assert(mid[i] == user_id[i - 5]);
        }
    }
    assert forall|i: int| 0 <= i < dig.len() implies dig[i] != ':' by {
        assert(crate::text::spec_is_digit(dig[i]));
        assert(':' as u32 == 58);
    }
    lemma_split_at_sep("logs"@, mid + seq![':'] + dig, ':');
    lemma_split_at_sep(mid, dig, ':');
    lemma_split_no_sep(dig, ':');
    let parts = spec_split(key, ':');
    assert(parts =~~= seq!["logs"@, mid, dig]);
    assert(parts.len() == 3);
    assert(parts[2] == dig);
    assert(mid.take("user_"@.len() as int) =~= "user_"@);
    assert(mid.skip("user_"@.len() as int) =~= user_id);
    assert(spec_strip_user_prefix(mid) == user_id);
}

/// The two halves of the pipeline agree: the bucket key the ingestion path
/// buffers an event under reads back as that event's user and day, and the
/// file the drain path then targets is the very per-day file the path codec
/// assigns to that user and timestamp.
pub proof fn lemma_drain_files_where_ingestion_buffered(user_id: Seq<char>, timestamp: u64)
    requires
        forall|i: int| 0 <= i < user_id.len() ==> user_id[i] != ':',
    ensures
        spec_parse_drain_key(crate::file_redis_layer::spec_redis_key(user_id, timestamp)) == Some(
            (user_id, crate::spec_day_index(timestamp)),
        ),
        spec_path_for_day(user_id, crate::spec_day_index(timestamp))
            == crate::file_redis_layer::spec_log_file_path(user_id, timestamp),
{
    lemma_parse_inverts_key(user_id, crate::spec_day_index(timestamp));
}

/// One flush of one bucket, as a state machine: the process performs the
/// store and file I/O this machine asks for, and feeds the outcome back.
///
/// A bucket's records are read in full first; a non-empty bucket is written
/// and flushed to its per-day file, and only a fully successful write is
/// followed by a deletion of the bucket key. On any earlier failure the
/// machine stops and the key is left in the store, so a later attempt
/// re-reads and re-writes the full contents: records can be delivered twice,
/// never lost.
pub enum FlushState {
    AwaitRead,
    AwaitWrite { count: usize },
    AwaitDelete { count: usize },
    Done { count: usize },
    Failed { error: AppError },
}

/// The outcome the process reports for the I/O the machine last asked for.
pub enum FlushEvent {
    ReadOk(Vec<String>),
    ReadFailed(String),
    WriteOk,
    WriteFailed(String),
    DeleteOk,
    DeleteFailed(String),
}

/// What the process is asked to do next. `Write` means: create the file's
/// directory if needed, append every line in order, and flush before
/// reporting success.
pub enum FlushAction {
    Read,
    Write { path: String, lines: Vec<String> },
    Delete,
    Stop,
}

/// The mathematical content of a `FlushState`.
pub enum FlushStateView {
    AwaitRead,
    AwaitWrite { count: int },
    AwaitDelete { count: int },
    Done { count: int },
    Failed { error: crate::types::AppErrorView },
}

/// The mathematical content of a `FlushEvent`.
pub enum FlushEventView {
    ReadOk(Seq<Seq<char>>),
    ReadFailed(Seq<char>),
    WriteOk,
    WriteFailed(Seq<char>),
    DeleteOk,
    DeleteFailed(Seq<char>),
}

/// The mathematical content of a `FlushAction`.
pub enum FlushActionView {
    Read,
    Write { path: Seq<char>, lines: Seq<Seq<char>> },
    Delete,
    Stop,
}

impl View for FlushState {
    type V = FlushStateView;

    open spec fn view(&self) -> FlushStateView {
        match self {
            FlushState::AwaitRead => FlushStateView::AwaitRead,
            FlushState::AwaitWrite { count } => FlushStateView::AwaitWrite { count: *count as int },
            FlushState::AwaitDelete { count } => FlushStateView::AwaitDelete {
                count: *count as int,
            },
            FlushState::Done { count } => FlushStateView::Done { count: *count as int },
            FlushState::Failed { error } => FlushStateView::Failed { error: error@ },
        }
    }
}

impl View for FlushEvent {
    type V = FlushEventView;

    open spec fn view(&self) -> FlushEventView {
        match self {
            FlushEvent::ReadOk(records) => FlushEventView::ReadOk(records.deep_view()),
            FlushEvent::ReadFailed(m) => FlushEventView::ReadFailed(m@),
            FlushEvent::WriteOk => FlushEventView::WriteOk,
            FlushEvent::WriteFailed(m) => FlushEventView::WriteFailed(m@),
            FlushEvent::DeleteOk => FlushEventView::DeleteOk,
            FlushEvent::DeleteFailed(m) => FlushEventView::DeleteFailed(m@),
        }
    }
}

impl View for FlushAction {
    type V = FlushActionView;

    open spec fn view(&self) -> FlushActionView {
        match self {
            FlushAction::Read => FlushActionView::Read,
            FlushAction::Write { path, lines } => FlushActionView::Write {
                path: path@,
                lines: lines.deep_view(),
            },
            FlushAction::Delete => FlushActionView::Delete,
            FlushAction::Stop => FlushActionView::Stop,
        }
    }
}

/// The transition relation of one bucket flush. Any event that does not
/// answer the pending request leaves the state alone and asks for nothing.
pub open spec fn spec_flush_step(key: Seq<char>, s: FlushStateView, e: FlushEventView) -> (
    FlushStateView,
    FlushActionView,
) {
    match (s, e) {
        (FlushStateView::AwaitRead, FlushEventView::ReadOk(records)) => {
            if records.len() == 0 {
                (FlushStateView::Done { count: 0 }, FlushActionView::Stop)
            } else {
                match spec_parse_drain_key(key) {
                    Some(parsed) => (
                        FlushStateView::AwaitWrite { count: records.len() as int },
                        FlushActionView::Write {
                            path: spec_path_for_day(parsed.0, parsed.1),
                            lines: records,
                        },
                    ),
                    None => (
                        FlushStateView::Failed {
                            error: crate::types::AppErrorView::JsonParseError(
                                spec_drain_key_error(key),
                            ),
                        },
                        FlushActionView::Stop,
                    ),
                }
            }
        },
        (FlushStateView::AwaitRead, FlushEventView::ReadFailed(m)) => (
            FlushStateView::Failed { error: crate::types::AppErrorView::RedisError(m) },
            FlushActionView::Stop,
        ),
        (FlushStateView::AwaitWrite { count }, FlushEventView::WriteOk) => (
            FlushStateView::AwaitDelete { count },
            FlushActionView::Delete,
        ),
        (FlushStateView::AwaitWrite { count }, FlushEventView::WriteFailed(m)) => (
            FlushStateView::Failed { error: crate::types::AppErrorView::FileError(m) },
            FlushActionView::Stop,
        ),
        (FlushStateView::AwaitDelete { count }, FlushEventView::DeleteOk) => (
            FlushStateView::Done { count },
            FlushActionView::Stop,
        ),
        (FlushStateView::AwaitDelete { count }, FlushEventView::DeleteFailed(m)) => (
            FlushStateView::Failed { error: crate::types::AppErrorView::RedisError(m) },
            FlushActionView::Stop,
        ),
        (s2, _) => (s2, FlushActionView::Stop),
    }
}

/// Start a flush of the bucket at `key`: the first request is always a full
/// read of the bucket's records.
pub fn flush_begin() -> (r: (FlushState, FlushAction))
    ensures
        r.0@ == FlushStateView::AwaitRead,
        r.1@ == FlushActionView::Read,
{
    (FlushState::AwaitRead, FlushAction::Read)
}

/// Take one step of the flush of the bucket at `key`.
pub fn flush_step(key: &str, state: FlushState, event: FlushEvent) -> (r: (FlushState, FlushAction))
    ensures
        (r.0@, r.1@) == spec_flush_step(key@, state@, event@),
{
    match (state, event) {
        (FlushState::AwaitRead, FlushEvent::ReadOk(records)) => {
            if records.len() == 0 {
                (FlushState::Done { count: 0 }, FlushAction::Stop)
            } else {
                match parse_drain_key(key) {
                    Ok(parsed) => {
                        let path = crate::file_redis_layer::path_for_day(
                            parsed.user_id.as_str(),
                            parsed.day,
                        );
                        let count = records.len();
                        (
                            FlushState::AwaitWrite { count },
                            FlushAction::Write { path, lines: records },
                        )
                    },
                    Err(error) => (FlushState::Failed { error }, FlushAction::Stop),
                }
            }
        },
        (FlushState::AwaitRead, FlushEvent::ReadFailed(m)) => (
            FlushState::Failed { error: AppError::RedisError(m) },
            FlushAction::Stop,
        ),
        (FlushState::AwaitWrite { count }, FlushEvent::WriteOk) => (
            FlushState::AwaitDelete { count },
            FlushAction::Delete,
        ),
        (FlushState::AwaitWrite { count: _ }, FlushEvent::WriteFailed(m)) => (
            FlushState::Failed { error: AppError::FileError(m) },
            FlushAction::Stop,
        ),
        (FlushState::AwaitDelete { count }, FlushEvent::DeleteOk) => (
            FlushState::Done { count },
            FlushAction::Stop,
        ),
        (FlushState::AwaitDelete { count: _ }, FlushEvent::DeleteFailed(m)) => (
            FlushState::Failed { error: AppError::RedisError(m) },
            FlushAction::Stop,
        ),
        (s, _) => (s, FlushAction::Stop),
    }
}

/// Deletion comes only after a confirmed write: the machine asks to delete a
/// bucket key exactly when the pending write of its full contents was
/// reported flushed and successful.
pub proof fn lemma_delete_only_after_write(key: Seq<char>, s: FlushStateView, e: FlushEventView)
    ensures
        spec_flush_step(key, s, e).1 is Delete <==> (s is AwaitWrite && e is WriteOk),
{
}

/// A failed write keeps the bucket: the machine moves to `Failed` carrying
/// the file error and never asks for the deletion, so every record is still
/// in the store for the next attempt.
pub proof fn lemma_write_failure_keeps_bucket(key: Seq<char>, s: FlushStateView, m: Seq<char>)
    requires
        s is AwaitWrite,
    ensures
        spec_flush_step(key, s, FlushEventView::WriteFailed(m)) == (
            FlushStateView::Failed { error: crate::types::AppErrorView::FileError(m) },
            FlushActionView::Stop,
        ),
{
}

/// What a flush writes is everything it read: for a non-empty bucket under a
/// well-formed key, the requested write holds exactly the records the read
/// returned, in order, aimed at the owner's per-day file.
pub proof fn lemma_write_covers_read(
    key: Seq<char>,
    records: Seq<Seq<char>>,
    user_id: Seq<char>,
    day: u64,
)
    requires
        records.len() > 0,
        spec_parse_drain_key(key) == Some((user_id, day)),
    ensures
        spec_flush_step(key, FlushStateView::AwaitRead, FlushEventView::ReadOk(records)) == (
            FlushStateView::AwaitWrite { count: records.len() as int },
            FlushActionView::Write { path: spec_path_for_day(user_id, day), lines: records },
        ),
{
}

/// A finished or failed flush is terminal: no event makes it ask for more
/// I/O or change its outcome.
pub proof fn lemma_flush_terminal(key: Seq<char>, s: FlushStateView, e: FlushEventView)
    requires
        s is Done || s is Failed,
    ensures
        spec_flush_step(key, s, e) == (s, FlushActionView::Stop),
{
}

/// Counters reported for one drain cycle.
#[derive(Debug, Clone, Copy, PartialEq, Eq, Structural)]
pub struct CycleStats {
    pub drained: u32,
    pub failed: u32,
    pub retried: u32,
}

/// A counter bumped by one, stopping at its type's limit.
pub open spec fn spec_sat_inc(c: u32) -> u32 {
    if c == u32::MAX {
        c
    } else {
        (c + 1) as u32
    }
}

fn sat_inc(c: u32) -> (r: u32)
    ensures
        r == spec_sat_inc(c),
{
    if c == u32::MAX {
        c
    } else {
        c + 1
    }
}

/// Where one flushed bucket ends up in the cycle's books.
#[derive(Debug, Clone, Copy, PartialEq, Eq, Structural)]
pub enum FlushDisposition {
    Drained,
    WillRetry,
    DeadLetter,
}

/// Book one bucket's flush outcome: success clears the key's failure
/// history; a failure bumps it, and the key is retried once later in the
/// cycle only while the new count is under `max_retries`, else it is
/// dead-lettered: left in the store for the next cycle's enumeration, but
/// not retried again within this one.
pub fn record_flush_outcome(
    tracker: &mut RetryTracker,
    stats: &mut CycleStats,
    key: &str,
    succeeded: bool,
    max_retries: u32,
) -> (d: FlushDisposition)
    ensures
        succeeded ==> {
            &&& d == FlushDisposition::Drained
            &&& final(tracker).spec_count(key@) is None
            &&& *final(stats) == (CycleStats {
                drained: spec_sat_inc(old(stats).drained),
                failed: old(stats).failed,
                retried: old(stats).retried,
            })
        },
        !succeeded ==> {
            let nc = spec_next_count(old(tracker).spec_count(key@));
            &&& final(tracker).spec_count(key@) == Some(nc)
            &&& (d == FlushDisposition::WillRetry <==> nc < max_retries)
            &&& (d == FlushDisposition::DeadLetter <==> nc >= max_retries)
            &&& *final(stats) == (CycleStats {
                drained: old(stats).drained,
                failed: spec_sat_inc(old(stats).failed),
                retried: if nc < max_retries {
                    spec_sat_inc(old(stats).retried)
                } else {
                    old(stats).retried
                },
            })
        },
        forall|k: Seq<char>|
            k != key@ ==> final(tracker).spec_count(k) == old(tracker).spec_count(k),
{
    if succeeded {
        tracker.reset(key);
        stats.drained = sat_inc(stats.drained);
        FlushDisposition::Drained
    } else {
        let count = tracker.increment(key);
        stats.failed = sat_inc(stats.failed);
        if count < max_retries {
            stats.retried = sat_inc(stats.retried);
            FlushDisposition::WillRetry
        } else {
            FlushDisposition::DeadLetter
        }
    }
}

} // verus!
