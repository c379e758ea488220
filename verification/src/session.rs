//! Session bookkeeping for the interactive tool around the store: the
//! session's log of prompts and responses, and the rules for loading
//! and listing stored sessions. Reading and writing session files,
//! minting identifiers and taking timestamps are the surrounding
//! program's work; it hands plain values in and takes plain values
//! back.

use vstd::prelude::*;

verus! {

/// One prompt and its response, at the timestamp the caller supplied.
#[derive(Clone, Debug, PartialEq)]
pub struct PromptLog {
    pub timestamp: String,
    pub prompt: String,
    pub response: String,
}

/// A session: its identifier and its logs, oldest first.
#[derive(Clone, Debug, PartialEq)]
pub struct Session {
    pub id: String,
    pub logs: Vec<PromptLog>,
}

/// Holds the live session.
#[derive(Clone, Debug, PartialEq)]
pub struct SessionManager {
    pub session: Session,
}

/// The file suffix under which a session is stored.
pub open spec fn session_suffix() -> Seq<char> {
    ".json"@
}

/// Whether a directory entry names a session file.
pub open spec fn is_session_file(name: Seq<char>) -> bool {
    name.len() >= 5 && name.skip(name.len() - 5) == session_suffix()
}

/// The identifiers among the entries: every session file's name with
/// its suffix stripped, in the order given.
pub open spec fn session_ids(names: Seq<Seq<char>>) -> Seq<Seq<char>>
    decreases names.len(),
{
    if names.len() == 0 {
        Seq::empty()
    } else if is_session_file(names.last()) {
        session_ids(names.drop_last()) + seq![
            names.last().take(names.last().len() - 5),
        ]
    } else {
        session_ids(names.drop_last())
    }
}

/// One more entry extends the identifiers exactly when it names a
/// session file.
proof fn lemma_session_ids_push(names: Seq<Seq<char>>, name: Seq<char>)
    ensures
        session_ids(names.push(name)) == (if is_session_file(name) {
            session_ids(names) + seq![name.take(name.len() - 5)]
        } else {
            session_ids(names)
        }),
{
    assert(names.push(name).drop_last() =~= names);
    assert(names.push(name).last() == name);
}

impl SessionManager {
    /// Starts a session with no logs, under the fresh identifier the
    /// caller minted.
    pub fn new_session(id: String) -> (r: SessionManager)
        ensures
            r.session.id@ == id@,
            r.session.logs@.len() == 0,
    {
        SessionManager { session: Session { id, logs: Vec::new() } }
    }

    /// Rebuilds the manager of a stored session from its identifier
    /// and its logs, exactly as read back.
    pub fn load_session(id: String, logs: Vec<PromptLog>) -> (r: SessionManager)
        ensures
            r.session.id@ == id@,
            r.session.logs == logs,
    {
        SessionManager { session: Session { id, logs } }
    }

    /// Appends one prompt and its response, at the given timestamp, to
    /// the session's log; every earlier log and the session's identity
    /// stay as they were.
    pub fn save_log(&mut self, prompt: &str, response: &str, timestamp: String)
        ensures
            final(self).session.id == old(self).session.id,
            final(self).session.logs@.len() == old(self).session.logs@.len() + 1,
            forall|j: int|
                0 <= j < old(self).session.logs@.len()
                    ==> #[trigger] final(self).session.logs@[j] == old(self).session.logs@[j],
            final(self).session.logs@.last().timestamp@ == timestamp@,
            final(self).session.logs@.last().prompt@ == prompt@,
            final(self).session.logs@.last().response@ == response@,
    {
        let entry = PromptLog {
            timestamp,
            prompt: prompt.to_owned(),
            response: response.to_owned(),
        };
        self.session.logs.push(entry);
    }

    /// Lists the stored sessions among the given directory entries:
    /// each entry that names a session file, its suffix stripped, in
    /// the order given.
    pub fn list_sessions(entries: Vec<String>) -> (r: Vec<String>)
        ensures
            r.deep_view() == session_ids(entries.deep_view()),
    {
        let suffix: &str = ".json";
        proof {
            reveal_strlit(".json");
        }
        let mut out: Vec<String> = Vec::new();
        let mut i: usize = 0;
        proof {
            assert(entries.deep_view().take(0) =~= Seq::<Seq<char>>::empty());
            assert(crate::mapper::str_views(out@) =~= session_ids(entries.deep_view().take(0)));
        }
        while i < entries.len()
            invariant
                i <= entries@.len(),
                suffix@ == ".json"@,
                suffix@.len() == 5,
                entries.deep_view().len() == entries@.len(),
                forall|j: int|
                    0 <= j < entries@.len() ==> #[trigger] entries.deep_view()[j]
                        == entries@[j]@,
                crate::mapper::str_views(out@) == session_ids(
                    entries.deep_view().take(i as int),
                ),
            decreases entries@.len() - i,
        {
            let name = entries[i].as_str();
            let name_len = name.unicode_len();
            let mut keeps = false;
            if name_len >= 5 {
                let mut k: usize = 0;
                let mut same = true;
                while k < 5
                    invariant
                        k <= 5,
                        suffix@ == ".json"@,
                        suffix@.len() == 5,
                        name_len as int == name@.len(),
                        name_len >= 5,
                        name@ == entries@[i as int]@,
                        i < entries@.len(),
                        same <==> (forall|m: int|
                            0 <= m < k ==> #[trigger] name@[name_len - 5 + m] == suffix@[m]),
                    decreases 5 - k,
                {
                    if name.get_char(name_len - 5 + k) != suffix.get_char(k) {
                        same = false;
                        proof {
                            assert(name@[name_len - 5 + k as int] != suffix@[k as int]);
                        }
                    }
                    k = k + 1;
                }
                keeps = same;
                proof {
                    assert(name@.len() - 5 == (name_len - 5) as int);
                    if same {
                        assert forall|m: int| 0 <= m < 5 implies name@.skip(name@.len() - 5)[m]
                            == session_suffix()[m] by {
                            assert(name@[name_len - 5 + m] == suffix@[m]);
                        }
                        assert(name@.skip(name@.len() - 5) =~= session_suffix());
                    } else {
                        let m = choose|m: int|
                            0 <= m < 5 && name@[name_len - 5 + m] != suffix@[m];
                        assert(name@.skip(name@.len() - 5)[m] != session_suffix()[m]);
                        assert(name@.skip(name@.len() - 5) != session_suffix());
                    }
                }
            }
            if keeps {
                let id = name.substring_char(0, name_len - 5).to_owned();
                let ghost pre = out@;
                out.push(id);
                proof {
                    let x = out@.last();
                    assert(out@ =~= pre.push(x));
                    crate::mapper::lemma_str_views_push(pre, x);
                    assert(x@ == entries@[i as int]@.take(entries@[i as int]@.len() - 5));
                }
            }
            proof {
                lemma_session_ids_push(
                    entries.deep_view().take(i as int),
                    entries.deep_view()[i as int],
                );
                assert(entries.deep_view().take(i as int).push(entries.deep_view()[i as int])
                    =~= entries.deep_view().take(i as int + 1));
                assert(crate::mapper::str_views(out@) =~= session_ids(
                    entries.deep_view().take(i as int + 1),
                ));
            }
            i = i + 1;
        }
        proof {
            assert(entries.deep_view().take(entries.deep_view().len() as int)
                =~= entries.deep_view());
            crate::mapper::lemma_string_deep_view(out);
        }
        out
    }
}

} // verus!
