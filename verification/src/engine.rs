//! The trial engine: a state machine that sequences one extraction
//! attempt. The caller performs each commanded action (reveal, list,
//! test, extract, save, delete, flatten) against the outside world and
//! reports the outcome; the engine makes every decision.
//!
//! With an explicit password the vault is never consulted and a rejected
//! password ends the attempt at once. A guided search walks the recency
//! cache in order, then the full ranked record list, then asks the
//! interactive collaborator once, if one exists; a success promotes the
//! matching record and persists the vault before the archive and its
//! volume siblings are deleted and the output directory is flattened.

use vstd::prelude::*;

use crate::errors::EzzError;
use crate::errors::EzzResult;
use crate::vault::cache_after;
use crate::vault::promote_shape;
use crate::vault::Record;
use crate::vault::VaultData;

verus! {

/// Where the password of the current attempt came from.
#[derive(Clone, Copy, Debug, PartialEq, Eq, Structural)]
pub enum Origin {
    /// Supplied by the caller; no retry, no vault.
    Explicit,
    /// The vault record at this index.
    Stored { index: usize },
    /// Typed in by the interactive collaborator.
    User,
}

/// What a finished extraction reports: the first extracted entry's
/// name and how many top-level entries the output directory held.
pub struct ExtractionOutcome {
    pub name: String,
    pub count: usize,
}

/// The engine's position in the attempt.
pub enum EngineState {
    /// Waiting for the disguise to be revealed.
    Revealing,
    /// Waiting for the archive's listing.
    Listing,
    /// Waiting for the decoder's verdict on one password.
    Testing { origin: Origin, pw: String },
    /// Waiting for the interactive collaborator's reply.
    Asking,
    /// Waiting for the full extraction with an accepted password.
    Extracting { origin: Origin, pw: String },
    /// Waiting for the updated vault to reach disk.
    Saving,
    /// Waiting for the archive and its volume siblings to be deleted.
    Deleting,
    /// Waiting for the output directory to be flattened.
    Flattening,
    /// Waiting for the partial output directory to be removed after a
    /// failed extraction.
    RemovingDebris { err: EzzError },
    /// The attempt succeeded; terminal.
    Done { outcome: ExtractionOutcome },
    /// The attempt failed; terminal.
    Failed { err: EzzError },
}

/// What the engine asks the caller to do next.
pub enum Directive {
    /// Reveal the disguised file.
    Reveal,
    /// List the archive's contents.
    List,
    /// Test this password against the archive.
    Test { pw: String },
    /// Extract the archive with this password.
    Extract { pw: String },
    /// Ask the interactive collaborator for a password.
    Ask,
    /// Write the engine's vault data to disk.
    SaveVault,
    /// Delete the archive and every volume sibling.
    DeleteArchive,
    /// Flatten the output directory.
    Flatten,
    /// Remove the partially-created output directory.
    RemoveDir,
    /// The attempt is over; report this outcome.
    Finish { outcome: ExtractionOutcome },
    /// The attempt is over; report this error.
    Abort { err: EzzError },
}

/// What the caller reports back after performing a directive.
pub enum Event {
    /// The reveal finished; `None` means it succeeded.
    RevealDone { error: Option<EzzError> },
    /// The listing finished with this first-file name (empty when the
    /// listing could not name one).
    ListDone { inner: String },
    /// The password test finished with this classified outcome.
    TestDone { verdict: EzzResult<()> },
    /// The collaborator replied, or declined with `None`.
    AskDone { password: Option<String> },
    /// The extraction finished with this classified outcome.
    ExtractDone { verdict: EzzResult<()> },
    /// The vault write finished; `None` means it succeeded.
    SaveDone { error: Option<EzzError> },
    /// The deletion finished; `None` means it succeeded.
    DeleteDone { error: Option<EzzError> },
    /// The flattening finished with the reported outcome.
    FlattenDone { report: EzzResult<ExtractionOutcome> },
    /// The partial output directory was removed.
    RemoveDirDone,
}

/// One extraction attempt in progress.
pub struct Engine {
    /// The engine's position.
    pub state: EngineState,
    /// The caller-supplied password, if any.
    pub explicit: Option<String>,
    /// The vault data a guided search walks and updates.
    pub data: VaultData,
    /// The next candidate position in the current scan.
    pub cursor: usize,
    /// Whether the scan still walks the recency cache.
    pub in_cache: bool,
    /// The first file of the listing, handed to password tests.
    pub inner: String,
}

impl Engine {
    /// A stored origin points at a real record; while testing a stored
    /// candidate, the cursor stands on it.
    pub open spec fn origin_wf(self, o: Origin) -> bool {
        match o {
            Origin::Stored { index } => index < self.data.records@.len(),
            _ => true,
        }
    }

    pub open spec fn state_wf(self) -> bool {
        match self.state {
            EngineState::Testing { origin, .. } => {
                &&& self.origin_wf(origin)
                &&& (origin matches Origin::Stored { index } ==> (if self.in_cache {
                    self.cursor < self.data.cache@.len() && self.data.cache@[self.cursor as int]
                        == index
                } else {
                    self.cursor == index
                }))
            },
            EngineState::Extracting { origin, .. } => self.origin_wf(origin),
            _ => true,
        }
    }

    /// In explicit mode the vault is never walked, asked about, or
    /// saved.
    pub open spec fn mode_wf(self) -> bool {
        self.explicit is Some ==> match self.state {
            EngineState::Testing { origin, .. } => origin is Explicit,
            EngineState::Extracting { origin, .. } => origin is Explicit,
            EngineState::Asking => false,
            EngineState::Saving => false,
            _ => true,
        }
    }

    pub open spec fn wf(self) -> bool {
        self.data.wf() && self.state_wf() && self.mode_wf()
    }

    /// Which events a state can receive; terminal states receive none.
    pub open spec fn accepts(self, ev: Event) -> bool {
        match (self.state, ev) {
            (EngineState::Revealing, Event::RevealDone { .. }) => true,
            (EngineState::Listing, Event::ListDone { .. }) => true,
            (EngineState::Testing { .. }, Event::TestDone { .. }) => true,
            (EngineState::Asking, Event::AskDone { .. }) => true,
            (EngineState::Extracting { .. }, Event::ExtractDone { .. }) => true,
            (EngineState::Saving, Event::SaveDone { .. }) => true,
            (EngineState::Deleting, Event::DeleteDone { .. }) => true,
            (EngineState::Flattening, Event::FlattenDone { .. }) => true,
            (EngineState::RemovingDebris { .. }, Event::RemoveDirDone) => true,
            _ => false,
        }
    }

    /// Starts an attempt: a disguised file is revealed first, anything
    /// else is listed at once.
    pub fn start(hidden: bool, explicit: Option<String>, data: VaultData) -> (r: (Engine, Directive))
        requires
            data.wf(),
        ensures
            r.0.wf(),
            r.0.explicit == explicit,
            r.0.data == data,
            hidden ==> r.0.state is Revealing && r.1 is Reveal,
            !hidden ==> r.0.state is Listing && r.1 is List,
    {
        let state = if hidden {
            EngineState::Revealing
        } else {
            EngineState::Listing
        };
        let d = if hidden {
            Directive::Reveal
        } else {
            Directive::List
        };
        (Engine { state, explicit, data, cursor: 0, in_cache: true, inner: String::new() }, d)
    }

    /// Moves to the next candidate password from the scan position
    /// `(in_cache, cursor)`: the remaining recency-cache entries in
    /// order, then the remaining records in rank order, then the
    /// interactive collaborator.
    fn issue_next(&mut self) -> (d: Directive)
        requires
            old(self).data.wf(),
            old(self).explicit is None,
        ensures
            final(self).data == old(self).data,
            final(self).explicit == old(self).explicit,
            final(self).inner == old(self).inner,
            final(self).wf(),
            issued(old(self).data, old(self).in_cache, old(self).cursor as int, *final(self), d),
    {
        if self.in_cache {
            if self.cursor < self.data.cache.len() {
                let idx = self.data.cache[self.cursor];
                let pw = self.data.records[idx].pwd.clone();
                let pw2 = pw.clone();
                self.state = EngineState::Testing { origin: Origin::Stored { index: idx }, pw };
                return Directive::Test { pw: pw2 };
            }
            self.in_cache = false;
            self.cursor = 0;
        }
        if self.cursor < self.data.records.len() {
            let idx = self.cursor;
            let pw = self.data.records[idx].pwd.clone();
            let pw2 = pw.clone();
            self.state = EngineState::Testing { origin: Origin::Stored { index: idx }, pw };
            return Directive::Test { pw: pw2 };
        }
        self.state = EngineState::Asking;
        Directive::Ask
    }

    /// Feeds one event into the engine and takes the next directive.
    /// The transition relation is `step_spec`.
    pub fn step(&mut self, ev: Event) -> (d: Directive)
        requires
            old(self).wf(),
            old(self).accepts(ev),
        ensures
            final(self).wf(),
            step_spec(*old(self), ev, *final(self), d),
            old(self).explicit is None ==> final(self).explicit is None,
            // An explicit password never touches the vault, and when it
            // is wrong the attempt ends at once, the archive intact.
            old(self).explicit is Some ==> !(d is SaveVault),
            (old(self).state matches EngineState::Testing { origin: Origin::Explicit, .. } && ev
                matches Event::TestDone { verdict } && verdict == Err::<(), EzzError>(
                EzzError::WrongPassword,
            )) ==> final(self).state == (EngineState::Failed { err: EzzError::WrongPassword }) && d
                == (Directive::Abort { err: EzzError::WrongPassword }),
    {
        let mut st = EngineState::Asking;
        core::mem::swap(&mut st, &mut self.state);
        match (st, ev) {
            (EngineState::Revealing, Event::RevealDone { error }) => {
                match error {
                    None => {
                        self.state = EngineState::Listing;
                        Directive::List
                    },
                    Some(e) => {
                        self.state = EngineState::Failed { err: e };
                        Directive::Abort { err: e }
                    },
                }
            },
            (EngineState::Listing, Event::ListDone { inner }) => {
                self.inner = inner;
                let explicit_pw = match &self.explicit {
                    Some(pw) => Some(pw.clone()),
                    None => None,
                };
                match explicit_pw {
                    Some(pw) => {
                        let pw2 = pw.clone();
                        self.state = EngineState::Testing { origin: Origin::Explicit, pw };
                        Directive::Test { pw: pw2 }
                    },
                    None => {
                        self.in_cache = true;
                        self.cursor = 0;
                        self.issue_next()
                    },
                }
            },
            (EngineState::Testing { origin, pw }, Event::TestDone { verdict }) => {
                match verdict {
                    Ok(()) => {
                        let pw2 = pw.clone();
                        self.state = EngineState::Extracting { origin, pw };
                        Directive::Extract { pw: pw2 }
                    },
                    Err(e) => {
                        if matches!(e, EzzError::WrongPassword) && matches!(
                            origin,
                            Origin::Stored { .. },
                        ) {
                            let cap = if self.in_cache {
                                self.data.cache.len()
                            } else {
                                self.data.records.len()
                            };
                            proof {
                                assert(old(self).cursor < cap);
                            }
                            self.cursor = self.cursor + 1;
                            self.issue_next()
                        } else {
                            self.state = EngineState::Failed { err: e };
                            Directive::Abort { err: e }
                        }
                    },
                }
            },
            (EngineState::Asking, Event::AskDone { password }) => {
                match password {
                    Some(pw) => {
                        let pw2 = pw.clone();
                        self.state = EngineState::Testing { origin: Origin::User, pw };
                        Directive::Test { pw: pw2 }
                    },
                    None => {
                        self.state = EngineState::Failed { err: EzzError::NoMatchedPassword };
                        Directive::Abort { err: EzzError::NoMatchedPassword }
                    },
                }
            },
            (EngineState::Extracting { origin, pw }, Event::ExtractDone { verdict }) => {
                match verdict {
                    Ok(()) => {
                        match origin {
                            Origin::Explicit => {
                                self.state = EngineState::Deleting;
                                Directive::DeleteArchive
                            },
                            Origin::Stored { index } => {
                                if self.data.records[index].freq < u32::MAX {
                                    self.data.update(index);
                                }
                                self.state = EngineState::Saving;
                                Directive::SaveVault
                            },
                            Origin::User => {
                                self.data.records.push(Record { freq: 0, pwd: pw });
                                let last = self.data.records.len() - 1;
                                proof {
                                    assert forall|i: int|
                                        0 <= i < self.data.cache@.len() implies (
                                    #[trigger] self.data.cache@[i]) < self.data.records@.len() by {
                                        assert(old(self).data.cache@[i]
                                            < old(self).data.records@.len());
                                    }
                                }
                                self.data.update(last);
                                self.state = EngineState::Saving;
                                Directive::SaveVault
                            },
                        }
                    },
                    Err(e) => {
                        self.state = EngineState::RemovingDebris { err: e };
                        Directive::RemoveDir
                    },
                }
            },
            (EngineState::Saving, Event::SaveDone { error }) => {
                match error {
                    None => {
                        self.state = EngineState::Deleting;
                        Directive::DeleteArchive
                    },
                    Some(e) => {
                        self.state = EngineState::Failed { err: e };
                        Directive::Abort { err: e }
                    },
                }
            },
            (EngineState::Deleting, Event::DeleteDone { error }) => {
                match error {
                    None => {
                        self.state = EngineState::Flattening;
                        Directive::Flatten
                    },
                    Some(e) => {
                        self.state = EngineState::Failed { err: e };
                        Directive::Abort { err: e }
                    },
                }
            },
            (EngineState::Flattening, Event::FlattenDone { report }) => {
                match report {
                    Ok(outcome) => {
                        let copy = ExtractionOutcome {
                            name: outcome.name.clone(),
                            count: outcome.count,
                        };
                        self.state = EngineState::Done { outcome };
                        Directive::Finish { outcome: copy }
                    },
                    Err(e) => {
                        self.state = EngineState::Failed { err: e };
                        Directive::Abort { err: e }
                    },
                }
            },
            (EngineState::RemovingDebris { err }, Event::RemoveDirDone) => {
                self.state = EngineState::Failed { err };
                Directive::Abort { err }
            },
            _ => unreached(),
        }
    }
}

/// The next candidate from scan position `(in_cache, cursor)`: a cache
/// entry if any remain, else a record if any remain, else the
/// interactive collaborator.
pub open spec fn issued(
    data: VaultData,
    in_cache: bool,
    cursor: int,
    post: Engine,
    d: Directive,
) -> bool {
    if in_cache && cursor < data.cache@.len() {
        let idx = data.cache@[cursor];
        &&& (post.state matches EngineState::Testing { origin, pw } && origin == (Origin::Stored {
            index: idx,
        }) && pw@ == data.records@[idx as int].pwd@)
        &&& post.in_cache
        &&& post.cursor == cursor
        &&& (d matches Directive::Test { pw } && pw@ == data.records@[idx as int].pwd@)
    } else {
        let rc = if in_cache {
            0int
        } else {
            cursor
        };
        if rc < data.records@.len() {
            &&& (post.state matches EngineState::Testing { origin, pw } && origin
                == (Origin::Stored { index: rc as usize }) && pw@ == data.records@[rc].pwd@)
            &&& !post.in_cache
            &&& post.cursor == rc
            &&& (d matches Directive::Test { pw } && pw@ == data.records@[rc].pwd@)
        } else {
            &&& post.state is Asking
            &&& d is Ask
        }
    }
}

/// The vault after promoting record `i`: exactly what
/// `VaultData::update` does.
pub open spec fn promoted(pre: VaultData, post: VaultData, i: int) -> bool {
    exists|j: usize|
        #[trigger] promote_shape(pre.records@, post.records@, i, j as int) && post.cache@
            == cache_after(pre.cache@, j)
}

/// The engine's full transition relation: each `(state, event)` pair
/// determines the next state and directive.
pub open spec fn step_spec(pre: Engine, ev: Event, post: Engine, d: Directive) -> bool {
    let frame = post.explicit == pre.explicit && post.inner == pre.inner && post.data == pre.data;
    match (pre.state, ev) {
        (EngineState::Revealing, Event::RevealDone { error }) => frame && (match error {
            None => post.state is Listing && d is List,
            Some(e) => post.state == (EngineState::Failed { err: e }) && d == (Directive::Abort {
                err: e,
            }),
        }),
        (EngineState::Listing, Event::ListDone { inner }) => {
            &&& post.explicit == pre.explicit
            &&& post.data == pre.data
            &&& post.inner == inner
            &&& (match pre.explicit {
                Some(pw) => (post.state matches EngineState::Testing { origin, pw: spw } && origin
                    == Origin::Explicit && spw@ == pw@) && (d matches Directive::Test { pw: dpw }
                    && dpw@ == pw@),
                None => issued(pre.data, true, 0, post, d),
            })
        },
        (EngineState::Testing { origin, pw }, Event::TestDone { verdict }) => {
            &&& post.explicit == pre.explicit
            &&& post.inner == pre.inner
            &&& post.data == pre.data
            &&& (match verdict {
                Ok(_) => (post.state matches EngineState::Extracting { origin: o2, pw: p2 } && o2
                    == origin && p2@ == pw@) && (d matches Directive::Extract { pw: dpw } && dpw@
                    == pw@),
                Err(e) => {
                    if e == EzzError::WrongPassword && origin matches Origin::Stored { .. } {
                        issued(pre.data, pre.in_cache, pre.cursor + 1, post, d)
                    } else {
                        post.state == (EngineState::Failed { err: e }) && d == (Directive::Abort {
                            err: e,
                        })
                    }
                },
            })
        },
        (EngineState::Asking, Event::AskDone { password }) => frame && (match password {
            Some(pw) => (post.state matches EngineState::Testing { origin, pw: spw } && origin
                == Origin::User && spw@ == pw@) && (d matches Directive::Test { pw: dpw } && dpw@
                == pw@),
            None => post.state == (EngineState::Failed { err: EzzError::NoMatchedPassword }) && d
                == (Directive::Abort { err: EzzError::NoMatchedPassword }),
        }),
        (EngineState::Extracting { origin, pw }, Event::ExtractDone { verdict }) => {
            &&& post.explicit == pre.explicit
            &&& post.inner == pre.inner
            &&& (match verdict {
                Ok(_) => (match origin {
                    Origin::Explicit => post.data == pre.data && post.state is Deleting && d
                        is DeleteArchive,
                    Origin::Stored { index } => {
                        &&& (if pre.data.records@[index as int].freq < u32::MAX {
                            promoted(pre.data, post.data, index as int)
                        } else {
                            post.data == pre.data
                        })
                        &&& post.state is Saving
                        &&& d is SaveVault
                    },
                    Origin::User => {
                        let pushed = pre.data.records@.push(Record { freq: 0u32, pwd: pw });
                        &&& (exists|j: usize|
                            #[trigger] promote_shape(
                                pushed,
                                post.data.records@,
                                pushed.len() - 1,
                                j as int,
                            ) && post.data.cache@ == cache_after(pre.data.cache@, j))
                        &&& post.state is Saving
                        &&& d is SaveVault
                    },
                }),
                Err(e) => post.data == pre.data && post.state == (EngineState::RemovingDebris {
                    err: e,
                }) && d is RemoveDir,
            })
        },
        (EngineState::Saving, Event::SaveDone { error }) => frame && (match error {
            None => post.state is Deleting && d is DeleteArchive,
            Some(e) => post.state == (EngineState::Failed { err: e }) && d == (Directive::Abort {
                err: e,
            }),
        }),
        (EngineState::Deleting, Event::DeleteDone { error }) => frame && (match error {
            None => post.state is Flattening && d is Flatten,
            Some(e) => post.state == (EngineState::Failed { err: e }) && d == (Directive::Abort {
                err: e,
            }),
        }),
        (EngineState::Flattening, Event::FlattenDone { report }) => frame && (match report {
            Ok(outcome) => (post.state matches EngineState::Done { outcome: o2 } && o2.name@
                == outcome.name@ && o2.count == outcome.count) && (d matches Directive::Finish {
                outcome: od,
            } && od.name@ == outcome.name@ && od.count == outcome.count),
            Err(e) => post.state == (EngineState::Failed { err: e }) && d == (Directive::Abort {
                err: e,
            }),
        }),
        (EngineState::RemovingDebris { err }, Event::RemoveDirDone) => frame && post.state == (
        EngineState::Failed { err }) && d == (Directive::Abort { err }),
        _ => false,
    }
}

} // verus!
