use vstd::prelude::*;

use crate::models::ModInfo;

verus! {

/// What happens to one file of a batch, as reported to the caller's event sink. `Main` is
/// the mod that was selected, `Dep` one of its dependencies.
pub enum EventType<'a> {
    MainAlreadyDownloaded(&'a ModInfo),
    MainDownloading(&'a ModInfo),
    MainDownloaded(&'a ModInfo),
    MainError(&'a ModInfo),
    DepAlreadyDownloaded(&'a ModInfo),
    DepDownloading(&'a ModInfo),
    DepDownloaded(&'a ModInfo),
    DepError(&'a ModInfo),
}

/// The step of a file's life that an event reports.
#[derive(Clone, Copy, Debug, PartialEq, Eq, Structural)]
pub enum Stage {
    AlreadyDownloaded,
    Downloading,
    Downloaded,
    Failed,
}

/// The event that reports `stage` for `item`, as the selected mod or as a dependency.
pub open spec fn event_for<'a>(item: &'a ModInfo, main: bool, stage: Stage) -> EventType<'a> {
    match stage {
        Stage::AlreadyDownloaded => if main {
            EventType::MainAlreadyDownloaded(item)
        } else {
            EventType::DepAlreadyDownloaded(item)
        },
        Stage::Downloading => if main {
            EventType::MainDownloading(item)
        } else {
            EventType::DepDownloading(item)
        },
        Stage::Downloaded => if main {
            EventType::MainDownloaded(item)
        } else {
            EventType::DepDownloaded(item)
        },
        Stage::Failed => if main {
            EventType::MainError(item)
        } else {
            EventType::DepError(item)
        },
    }
}

fn event<'a>(item: &'a ModInfo, main: bool, stage: Stage) -> (r: EventType<'a>)
    ensures
        r == event_for(item, main, stage),
{
    match stage {
        Stage::AlreadyDownloaded => if main {
            EventType::MainAlreadyDownloaded(item)
        } else {
            EventType::DepAlreadyDownloaded(item)
        },
        Stage::Downloading => if main {
            EventType::MainDownloading(item)
        } else {
            EventType::DepDownloading(item)
        },
        Stage::Downloaded => if main {
            EventType::MainDownloaded(item)
        } else {
            EventType::DepDownloaded(item)
        },
        Stage::Failed => if main {
            EventType::MainError(item)
        } else {
            EventType::DepError(item)
        },
    }
}

/// A "downloading" event at `i` is followed by the outcome of that download, or is the last
/// event while the download is under way.
pub open spec fn settled(log: Seq<(u32, Stage)>, i: int, in_flight: Option<u32>) -> bool {
    log[i].1 == Stage::Downloading ==> (i + 1 < log.len() && log[i + 1].0 == log[i].0 && (log[i
        + 1].1 == Stage::Downloaded || log[i + 1].1 == Stage::Failed)) || (i + 1 == log.len()
        && in_flight == Some(log[i].0))
}

/// Decides, file by file, what a batch download does, and keeps the ledger of the mods
/// downloaded in the batch.
///
/// For each file the caller says whether it is already on disk and calls `begin`. Where that
/// reports a download, the caller fetches the file and reports the outcome to `finish`.
pub struct Planner {
    ledger: Vec<u32>,
    in_flight: Option<u32>,
    log: Ghost<Seq<(u32, Stage)>>,
}

impl Planner {
    /// The mods downloaded successfully in this batch.
    pub closed spec fn ledger(&self) -> Seq<u32> {
        self.ledger@
    }

    /// The mod whose download was begun and not yet finished.
    pub closed spec fn in_flight(&self) -> Option<u32> {
        self.in_flight
    }

    /// Every event reported so far, as the mod and the stage.
    pub closed spec fn log(&self) -> Seq<(u32, Stage)> {
        self.log@
    }

    pub open spec fn wf(&self) -> bool {
        let log = self.log();
        &&& forall|i: int|
            0 <= i < log.len() && (#[trigger] log[i]).1 == Stage::Downloaded ==> self.ledger().contains(
                log[i].0,
            )
        &&& forall|i: int| 0 <= i < log.len() ==> #[trigger] settled(log, i, self.in_flight())
        &&& forall|i: int, j: int|
            0 <= i < j < log.len() && (#[trigger] log[i]).1 == Stage::Downloaded && (#[trigger] log[j]).1
                == Stage::Downloading ==> log[i].0 != log[j].0
        &&& self.in_flight() matches Some(m) ==> log.len() > 0 && log.last() == (m, Stage::Downloading)
    }

    pub fn new() -> (r: Planner)
        ensures
            r.wf(),
            r.ledger() == Seq::<u32>::empty(),
            r.in_flight() is None,
            r.log() == Seq::<(u32, Stage)>::empty(),
    {
        Planner { ledger: Vec::new(), in_flight: None, log: Ghost(Seq::empty()) }
    }

    /// Whether no download is under way.
    pub fn is_idle(&self) -> (r: bool)
        ensures
            r == (self.in_flight() is None),
    {
        self.in_flight.is_none()
    }

    /// Whether `mod_id` was downloaded successfully in this batch.
    pub fn downloaded(&self, mod_id: u32) -> (r: bool)
        ensures
            r == self.ledger().contains(mod_id),
    {
        let mut i: usize = 0;
        while i < self.ledger.len()
            invariant
                i <= self.ledger@.len(),
                forall|j: int| 0 <= j < i ==> self.ledger@[j] != mod_id,
            decreases self.ledger@.len() - i,
        {
            if self.ledger[i] == mod_id {
                assert(self.ledger@[i as int] == mod_id);
                return true;
            }
            i = i + 1;
        }
        false
    }

    /// Takes up the next file. A file that is on disk already, or whose mod was downloaded
    /// in this batch, is reported as already downloaded and no download starts; else the
    /// download of it starts.
    pub fn begin<'a>(&mut self, item: &'a ModInfo, main: bool, on_disk: bool) -> (r: EventType<'a>)
        requires
            old(self).wf(),
            old(self).in_flight() is None,
        ensures
            final(self).wf(),
            final(self).ledger() == old(self).ledger(),
            (on_disk || old(self).ledger().contains(item.id)) ==> r == event_for(
                item,
                main,
                Stage::AlreadyDownloaded,
            ) && final(self).in_flight() is None && final(self).log() == old(self).log().push(
                (item.id, Stage::AlreadyDownloaded),
            ),
            !(on_disk || old(self).ledger().contains(item.id)) ==> r == event_for(
                item,
                main,
                Stage::Downloading,
            ) && final(self).in_flight() == Some(item.id) && final(self).log() == old(
                self,
            ).log().push((item.id, Stage::Downloading)),
    {
        let ghost old_log = self.log@;
        let ghost old_flight = self.in_flight;
        if on_disk || self.downloaded(item.id) {
            self.log = Ghost(old_log.push((item.id, Stage::AlreadyDownloaded)));
            proof {
                let log = self.log@;
                assert forall|i: int| 0 <= i < log.len() implies #[trigger] settled(
                    log,
                    i,
                    self.in_flight(),
                ) by {
                    if i < old_log.len() {
                        assert(settled(old_log, i, old_flight));
                        assert(log[i] == old_log[i]);
                        if i + 1 < old_log.len() {
                            assert(log[i + 1] == old_log[i + 1]);
                        }
                    }
                }
                assert forall|i: int, j: int|
                    0 <= i < j < log.len() && (#[trigger] log[i]).1 == Stage::Downloaded && (
                    #[trigger] log[j]).1 == Stage::Downloading implies log[i].0 != log[j].0 by {
                    assert(log[i] == old_log[i]);
                    assert(log[j] == old_log[j]);
                }
            }
            event(item, main, Stage::AlreadyDownloaded)
        } else {
            self.in_flight = Some(item.id);
            self.log = Ghost(old_log.push((item.id, Stage::Downloading)));
            proof {
                let log = self.log@;
                assert forall|i: int| 0 <= i < log.len() implies #[trigger] settled(
                    log,
                    i,
                    self.in_flight(),
                ) by {
                    if i < old_log.len() {
                        assert(settled(old_log, i, old_flight));
                        assert(log[i] == old_log[i]);
                        if i + 1 < old_log.len() {
                            assert(log[i + 1] == old_log[i + 1]);
                        }
                    }
                }
                assert forall|i: int, j: int|
                    0 <= i < j < log.len() && (#[trigger] log[i]).1 == Stage::Downloaded && (
                    #[trigger] log[j]).1 == Stage::Downloading implies log[i].0 != log[j].0 by {
                    assert(log[i] == old_log[i]);
                    if j < old_log.len() {
                        assert(log[j] == old_log[j]);
                    } else {
                        assert(self.ledger@.contains(log[i].0));
                    }
                }
            }
            event(item, main, Stage::Downloading)
        }
    }

    /// Takes the outcome of the download under way: on success the mod enters the ledger and
    /// is reported downloaded; on failure it is reported as an error and stays out of the
    /// ledger.
    pub fn finish<'a>(&mut self, item: &'a ModInfo, main: bool, ok: bool) -> (r: EventType<'a>)
        requires
            old(self).wf(),
            old(self).in_flight() == Some(item.id),
        ensures
            final(self).wf(),
            final(self).in_flight() is None,
            ok ==> r == event_for(item, main, Stage::Downloaded) && final(self).ledger() == old(
                self,
            ).ledger().push(item.id) && final(self).log() == old(self).log().push(
                (item.id, Stage::Downloaded),
            ),
            !ok ==> r == event_for(item, main, Stage::Failed) && final(self).ledger() == old(
                self,
            ).ledger() && final(self).log() == old(self).log().push((item.id, Stage::Failed)),
    {
        let ghost old_log = self.log@;
        let ghost old_ledger = self.ledger@;
        let ghost old_flight = self.in_flight;
        self.in_flight = None;
        let stage = if ok {
            self.ledger.push(item.id);
            Stage::Downloaded
        } else {
            Stage::Failed
        };
        self.log = Ghost(old_log.push((item.id, stage)));
        proof {
            let log = self.log@;
            assert forall|i: int|
                0 <= i < log.len() && (#[trigger] log[i]).1 == Stage::Downloaded implies self.ledger().contains(
                log[i].0,
            ) by {
                if i < old_log.len() {
                    assert(log[i] == old_log[i]);
                    let k = choose|k: int| 0 <= k < old_ledger.len() && old_ledger[k] == log[i].0;
                    assert(self.ledger@[k] == log[i].0);
                } else {
                    assert(self.ledger@[self.ledger@.len() - 1] == item.id);
                }
            }
            assert forall|i: int| 0 <= i < log.len() implies #[trigger] settled(
                log,
                i,
                self.in_flight(),
            ) by {
                if i < old_log.len() {
                    assert(settled(old_log, i, old_flight));
                    assert(log[i] == old_log[i]);
                    if i + 1 < old_log.len() {
                        assert(log[i + 1] == old_log[i + 1]);
                    }
                }
            }
            assert forall|i: int, j: int|
                0 <= i < j < log.len() && (#[trigger] log[i]).1 == Stage::Downloaded && (
                #[trigger] log[j]).1 == Stage::Downloading implies log[i].0 != log[j].0 by {
                assert(log[i] == old_log[i]);
                assert(log[j] == old_log[j]);
            }
        }
        event(item, main, stage)
    }
}

/// Within one batch a mod is downloaded again only after its download failed: of two
/// "downloading" events for the same mod, the event right after the first reports that
/// download's failure, before the second.
pub proof fn lemma_no_second_download(p: &Planner)
    requires
        p.wf(),
    ensures
        forall|i: int, j: int|
            0 <= i < j < p.log().len() && (#[trigger] p.log()[i]).1 == Stage::Downloading && (
            #[trigger] p.log()[j]).1 == Stage::Downloading && p.log()[i].0 == p.log()[j].0 ==> i + 1
                < j && p.log()[i + 1] == (p.log()[i].0, Stage::Failed),
{
    let log = p.log();
    assert forall|i: int, j: int|
        0 <= i < j < log.len() && (#[trigger] log[i]).1 == Stage::Downloading && (
        #[trigger] log[j]).1 == Stage::Downloading && log[i].0 == log[j].0 implies i + 1 < j
        && log[i + 1] == (log[i].0, Stage::Failed) by {
        assert(settled(log, i, p.in_flight()));
        assert(log[i + 1].1 != Stage::Downloading);
        if log[i + 1].1 == Stage::Downloaded {
            assert(log[i + 1].0 != log[j].0);
        }
    }
}

/// Where no download of a batch failed, no mod is reported downloading twice.
pub proof fn lemma_downloading_once(p: &Planner)
    requires
        p.wf(),
        forall|k: int| 0 <= k < p.log().len() ==> (#[trigger] p.log()[k]).1 != Stage::Failed,
    ensures
        forall|i: int, j: int|
            0 <= i < j < p.log().len() && (#[trigger] p.log()[i]).1 == Stage::Downloading && (
            #[trigger] p.log()[j]).1 == Stage::Downloading ==> p.log()[i].0 != p.log()[j].0,
{
    lemma_no_second_download(p);
    assert forall|i: int, j: int|
        0 <= i < j < p.log().len() && (#[trigger] p.log()[i]).1 == Stage::Downloading && (
        #[trigger] p.log()[j]).1 == Stage::Downloading implies p.log()[i].0 != p.log()[j].0 by {
        if p.log()[i].0 == p.log()[j].0 {
            assert(p.log()[i + 1].1 == Stage::Failed);
        }
    }
}

} // verus!
