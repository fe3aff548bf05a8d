//! What is kept of a user: when they were last seen, and what they chose.

use crate::text;
use crate::types;
use vstd::prelude::*;

verus! {

/// A user is not noted again before this many milliseconds have passed.
pub const TOUCH_DEBOUNCE_MS: u64 = 3_600_000;

/// When each user was last noted.
#[derive(Debug)]
pub struct Touches {
    entries: Vec<(String, u64)>,
}

/// When a user was last noted, by the last entry that has them.
pub open spec fn last_touch(v: Seq<(String, u64)>, user: Seq<char>) -> Option<u64>
    decreases v.len(),
{
    if v.len() == 0 {
        None
    } else if v.last().0@ == user {
        Some(v.last().1)
    } else {
        last_touch(v.drop_last(), user)
    }
}

/// A user is noted at `now`: they never were, or long enough ago.
pub open spec fn is_due(last: Option<u64>, now: u64) -> bool {
    match last {
        Some(t) => now - t >= TOUCH_DEBOUNCE_MS,
        None => true,
    }
}

impl Touches {
    /// When a user was last noted.
    pub closed spec fn last(&self, user: Seq<char>) -> Option<u64> {
        last_touch(self.entries@, user)
    }

    /// No one has been seen.
    pub fn new() -> (r: Self)
        ensures
            forall|u: Seq<char>| r.last(u) is None,
    {
        Touches { entries: Vec::new() }
    }

    /// A user is seen at `now`. Says whether that is to be written down.
    pub fn touch(&mut self, user: &str, now: u64) -> (r: bool)
        ensures
            r == is_due(old(self).last(user@), now),
            forall|u: Seq<char>|
                #[trigger] final(self).last(u) == if r && u == user@ {
                    Some(now)
                } else {
                    old(self).last(u)
                },
    {
        let ghost before = self.entries@;
        let mut i: usize = self.entries.len();
        assert(before.take(i as int) =~= before);
        let mut found: Option<usize> = None;
        while i > 0 && found.is_none()
            invariant
                i <= self.entries@.len(),
                self.entries@ == before,
                match found {
                    Some(k) => {
                        &&& k < before.len()
                        &&& before[k as int].0@ == user@
                        &&& forall|j: int| k < j < before.len() ==> (#[trigger] before[j]).0@ != user@
                        &&& last_touch(before, user@) == Some(before[k as int].1)
                    },
                    None => {
                        &&& last_touch(before, user@) == last_touch(before.take(i as int), user@)
                        &&& forall|j: int| i <= j < before.len() ==> (#[trigger] before[j]).0@
                            != user@
                    },
                },
            decreases i,
        {
            proof {
                assert(before.take(i as int).drop_last() =~= before.take(i - 1));
                assert(before.take(i as int).last() == before[i - 1]);
            }
            i -= 1;
            if *self.entries[i].0.as_str() == *user {
                found = Some(i);
            }
        }
        match found {
            Some(k) => {
                let t: u64 = self.entries[k].1;
                if now < t || now - t < TOUCH_DEBOUNCE_MS {
                    return false;
                }
                self.entries.set(k, (text::own(user), now));
                proof {
                    assert forall|u: Seq<char>|
                        #[trigger] last_touch(self.entries@, u) == if u == user@ {
                            Some(now)
                        } else {
                            last_touch(before, u)
                        } by {
                        touch_replaced(before, self.entries@, k as int, u);
                    }
                }
            },
            None => {
                self.entries.push((text::own(user), now));
                assert(self.entries@.drop_last() =~= before);
            },
        }
        true
    }
}

proof fn touch_replaced(v: Seq<(String, u64)>, w: Seq<(String, u64)>, k: int, user: Seq<char>)
    requires
        0 <= k < v.len(),
        w.len() == v.len(),
        w[k].0@ == v[k].0@,
        forall|j: int| 0 <= j < v.len() && j != k ==> #[trigger] w[j] == v[j],
        forall|j: int| k < j < v.len() ==> (#[trigger] v[j]).0@ != v[k].0@,
    ensures
        last_touch(w, user) == if user == v[k].0@ {
            Some(w[k].1)
        } else {
            last_touch(v, user)
        },
    decreases v.len(),
{
    if k == v.len() - 1 {
        assert(w.drop_last() =~= v.drop_last());
    } else {
        assert(w[v.len() - 1] == v[v.len() - 1]);
        touch_replaced(v.drop_last(), w.drop_last(), k, user);
    }
}

/// Between two times that a user is written down, an hour passes.
pub proof fn touches_are_apart(last: u64, now: u64)
    requires
        is_due(Some(last), now),
    ensures
        now >= last + TOUCH_DEBOUNCE_MS,
{
}

// ---- settings ----

/// What a user chose for the whole program.
#[derive(Debug)]
pub struct UserSettings {
    pub theme: Option<String>,
}

impl Default for UserSettings {
    fn default() -> (r: Self)
        ensures
            r.theme is None,
    {
        UserSettings { theme: None }
    }
}

/// A choice without the white space around it; none where nothing is left.
pub open spec fn chosen(s: Option<Seq<char>>) -> Option<Seq<char>> {
    match s {
        Some(t) => if text::trimmed(t).len() == 0 {
            None
        } else {
            Some(text::trimmed(t))
        },
        None => None,
    }
}

/// The theme that is stored.
pub fn stored_theme(theme: Option<&str>) -> (r: Option<String>)
    ensures
        types::opt_text(r) == chosen(types::opt_str(theme)),
{
    match theme {
        None => None,
        Some(t) => {
            let s = text::trim(t);
            let v = text::chars_of(s.as_str());
            if v.len() == 0 {
                None
            } else {
                Some(s)
            }
        },
    }
}

/// What a user chose for a show or a movie.
#[derive(Debug)]
pub struct MediaPreferences {
    pub subtitle_id: Option<String>,
    pub subtitle_lang: Option<String>,
    pub audio_idx: Option<u32>,
    pub audio_lang: Option<String>,
    pub audio_codec: Option<String>,
    pub transcode_mode: Option<String>,
    pub bitrate_kbps: Option<u32>,
}

/// A number from the database. It was stored from one of this kind.
pub fn stored_number(n: Option<i64>) -> (r: Option<u32>)
    ensures
        r == match n {
            Some(x) => Some(x as u32),
            None => None,
        },
{
    match n {
        Some(x) => Some(x as u32),
        None => None,
    }
}

/// A number for the database.
pub fn number_to_store(n: Option<u32>) -> (r: Option<i64>)
    ensures
        r == match n {
            Some(x) => Some(x as i64),
            None => None,
        },
{
    match n {
        Some(x) => Some(x as i64),
        None => None,
    }
}

/// What was stored is read back.
pub proof fn number_roundtrip(n: u32)
    ensures
        (n as i64) as u32 == n,
{
}

// ---- further laws ----

/// A user is written down anew from an hour after the last time on, and no sooner; the first
/// time at once.
pub proof fn touches_come_hourly(last: u64, now: u64)
    ensures
        is_due(Some(last), now) <==> now >= last + 3_600_000,
        is_due(None, now),
{
}

/// A theme is stored without white space around it, and not at all where nothing else is
/// there.
pub proof fn themes_are_stored_bare(s: Seq<char>)
    ensures
        chosen(Some(s)) is None <==> text::is_blank(s),
        chosen(Some(s)) matches Some(t) ==> t.len() > 0 && !text::is_white(t[0]) && !text::is_white(
            t.last(),
        ),
        chosen(None) is None,
{
    text::blank_iff_trimmed_empty(s);
    text::trimming_strips_white_space(s);
}

} // verus!
