//! Which downloads are under way, so that requests for the same rendition share
//! one.
use vstd::prelude::*;

verus! {

/// The keys that are being downloaded.
pub struct Downloads {
    keys: Vec<String>,
}

impl View for Downloads {
    type V = Set<Seq<char>>;

    closed spec fn view(&self) -> Set<Seq<char>> {
        Set::new(|k: Seq<char>| exists|i: int| 0 <= i < self.keys@.len() && self.keys@[i]@ == k)
    }
}

impl Downloads {
    /// No key is listed twice.
    pub closed spec fn wf(self) -> bool {
        forall|i: int, j: int|
            0 <= i < j < self.keys@.len() ==> (#[trigger] self.keys@[i])@ != (
            #[trigger] self.keys@[j])@
    }

    /// No downloads.
    pub fn new() -> (downloads: Downloads)
        ensures
            downloads.wf(),
            downloads@ == Set::<Seq<char>>::empty(),
    {
        let downloads = Downloads { keys: Vec::new() };
        proof {
            assert(downloads@ =~= Set::<Seq<char>>::empty());
        }
        downloads
    }

    fn position(&self, key: &str) -> (at: Option<usize>)
        ensures
            at is Some <==> self@.contains(key@),
            at matches Some(i) ==> i < self.keys@.len() && self.keys@[i as int]@ == key@,
    {
        let wanted = key.to_owned();
        let mut i: usize = 0;
        while i < self.keys.len()
            invariant
                i <= self.keys.len(),
                wanted@ == key@,
                forall|k: int| 0 <= k < i ==> (#[trigger] self.keys@[k])@ != key@,
            decreases self.keys.len() - i,
        {
            if self.keys[i] == wanted {
                assert(self.keys@[i as int]@ == key@);
                return Some(i);
            }
            i = i + 1;
        }
        None
    }

    /// Joins the download under `key`: the caller is to make it if nobody does,
    /// and else to wait for its end.
    pub fn join(&mut self, key: &str) -> (lead: bool)
        requires
            old(self).wf(),
        ensures
            final(self).wf(),
            lead == !old(self)@.contains(key@),
            final(self)@ == old(self)@.insert(key@),
    {
        let ghost before = self.keys@;
        match self.position(key) {
            Some(_) => {
                proof {
                    assert(self@ =~= old(self)@.insert(key@));
                }
                false
            },
            None => {
                proof {
                    assert forall|i: int| 0 <= i < before.len() implies (#[trigger] before[i])@
                        != key@ by {
                        if before[i]@ == key@ {
                            assert(self@.contains(key@));
                        }
                    }
                }
                self.keys.push(key.to_owned());
                proof {
                    assert(self.keys@[before.len() as int]@ == key@);
                    assert forall|k: Seq<char>| self@.contains(k) <==> old(self)@.insert(
                        key@,
                    ).contains(k) by {
                        if old(self)@.contains(k) {
                            let i = choose|i: int| 0 <= i < before.len() && before[i]@ == k;
                            assert(self.keys@[i]@ == k);
                        }
                        if self@.contains(k) && k != key@ {
                            let i = choose|i: int| 0 <= i < self.keys@.len() && self.keys@[i]@ == k;
                            assert(before[i]@ == k);
                        }
                    }
                    assert(self@ =~= old(self)@.insert(key@));
                }
                true
            },
        }
    }

    /// Ends the download under `key`.
    pub fn end(&mut self, key: &str)
        requires
            old(self).wf(),
        ensures
            final(self).wf(),
            final(self)@ == old(self)@.remove(key@),
    {
        let ghost before = self.keys@;
        match self.position(key) {
            Some(at) => {
                let _ = self.keys.remove(at);
                proof {
                    assert(self.keys@ == before.remove(at as int));
                    assert forall|i: int, j: int| 0 <= i < j < self.keys@.len() implies (
                    #[trigger] self.keys@[i])@ != (#[trigger] self.keys@[j])@ by {
                        let x = if i < at {
                            i
                        } else {
                            i + 1
                        };
                        let y = if j < at {
                            j
                        } else {
                            j + 1
                        };
                        assert(before[x]@ != before[y]@);
                    }
                    assert forall|k: Seq<char>| self@.contains(k) <==> old(self)@.remove(
                        key@,
                    ).contains(k) by {
                        if old(self)@.contains(k) && k != key@ {
                            let i = choose|i: int| 0 <= i < before.len() && before[i]@ == k;
                            let x = if i < at {
                                i
                            } else {
                                i - 1
                            };
                            assert(self.keys@[x]@ == k);
                        }
                        if self@.contains(k) {
                            let i = choose|i: int| 0 <= i < self.keys@.len() && self.keys@[i]@ == k;
                            let x = if i < at {
                                i
                            } else {
                                i + 1
                            };
                            assert(before[x]@ == k);
                            if k == key@ {
                                assert(x != at);
                                assert(before[x]@ != before[at as int]@);
                            }
                        }
                    }
                    assert(self@ =~= old(self)@.remove(key@));
                }
            },
            None => {
                proof {
                    assert(self@ =~= old(self)@.remove(key@));
                }
            },
        }
    }
}

/// Something that happens to the downloads.
pub enum DownloadEvent {
    /// A request joins the download under this key.
    Join(Seq<char>),
    /// The download under this key ends.
    End(Seq<char>),
}

/// The downloads after a row of events.
pub open spec fn downloads_after(downloads: Set<Seq<char>>, events: Seq<DownloadEvent>) -> Set<
    Seq<char>,
>
    decreases events.len(),
{
    if events.len() == 0 {
        downloads
    } else {
        let before = downloads_after(downloads, events.drop_last());
        match events.last() {
            DownloadEvent::Join(key) => before.insert(key),
            DownloadEvent::End(key) => before.remove(key),
        }
    }
}

/// Requests for the same rendition share one download: as long as it has not
/// ended, whatever else joins or ends, nobody else is told to make it.
pub proof fn requests_share_a_download(
    downloads: Set<Seq<char>>,
    key: Seq<char>,
    events: Seq<DownloadEvent>,
)
    requires
        forall|i: int|
            0 <= i < events.len() ==> #[trigger] events[i] != DownloadEvent::End(key),
    ensures
        downloads_after(downloads.insert(key), events).contains(key),
    decreases events.len(),
{
    if events.len() > 0 {
        assert(events[events.len() - 1] == events.last());
        assert forall|i: int| 0 <= i < events.drop_last().len() implies #[trigger] events.drop_last()[i]
            != DownloadEvent::End(key) by {
            assert(events.drop_last()[i] == events[i]);
        }
        requests_share_a_download(downloads, key, events.drop_last());
    }
}

/// Whoever joins under a key makes the download exactly if nobody does yet, and
/// the key is taken then, until the download under it ends; other keys are not
/// touched by either.
pub proof fn keys_are_taken_and_given_back(
    none: Downloads,
    joined: &mut Downloads,
    ended: &mut Downloads,
    key: &str,
    lead: bool,
    other: Seq<char>,
)
    requires
        call_ensures(Downloads::new, (), none),
        call_ensures(Downloads::join, (joined, key), lead),
        call_ensures(Downloads::end, (ended, key), ()),
    ensures
        !none@.contains(other),
        lead <==> !old(joined)@.contains(key@),
        final(joined)@.contains(key@),
        !final(ended)@.contains(key@),
        other != key@ ==> (final(joined)@.contains(other) <==> old(joined)@.contains(other)),
        other != key@ ==> (final(ended)@.contains(other) <==> old(ended)@.contains(other)),
{
}

} // verus!
