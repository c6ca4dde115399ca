//! The navigator worker: the authoritative file list, the current position,
//! the single-slot prefetch cache and the list-repair algorithm.
//!
//! Every state change is pinned down by a specification-level transition
//! function over [`WorkerView`], so each handler's contract states exactly
//! which item it delivers, where the position moves, and how the file list
//! shrinks.

use vstd::prelude::*;

use crate::item::{get_std_img, placeholder_view, CaptionedImg, ItemView};
use crate::protocol::{BufferCommand, BufferResult};
use crate::store::{item_of, loadable, wrote, Store, StoreView};

verus! {

/// The travel direction the prefetch slot was built for.
#[derive(Clone, Copy, PartialEq, Eq, Structural)]
pub enum Direction {
    /// Toward later indices.
    Forward,
    /// Toward earlier indices.
    Backward,
    /// No direction recorded yet.
    Unset,
}

/// Model of the prefetch slot: one pre-loaded item and the index it sits at.
pub struct SlotView {
    /// The pre-loaded item.
    pub item: ItemView,
    /// The index in the file list the item was loaded from.
    pub index: int,
}

/// Model of the worker's navigation state.
pub struct WorkerView {
    /// The candidate names, in order.
    pub files: Seq<Seq<char>>,
    /// Index of the item last delivered; absent before the first delivery.
    pub position: Option<int>,
    /// The single-slot prefetch cache.
    pub slot: Option<SlotView>,
    /// The direction the slot was built for.
    pub direction: Direction,
}

/// The names a list of candidates stands for.
pub open spec fn names_of(files: Seq<String>) -> Seq<Seq<char>> {
    files.map_values(|s: String| s@)
}

/// One load-with-skip scan: from `pos`, unloadable candidates are removed
/// for good and the scan retries at the same index — stepping back to the
/// new last entry when the removal was at the tail — until a load succeeds
/// or the list is exhausted, which yields the built-in placeholder.
/// Returns the repaired list, the loaded item, and the index it sits at.
pub open spec fn repair(store: StoreView, files: Seq<Seq<char>>, pos: int) -> (Seq<Seq<char>>, ItemView, int)
    decreases files.len(),
{
    if pos < 0 || pos >= files.len() {
        (files, placeholder_view(), 0)
    } else if loadable(store, files[pos]) {
        (files, item_of(store, files[pos]), pos)
    } else {
        let files2 = files.remove(pos);
        if files2.len() == 0 {
            (files2, placeholder_view(), 0)
        } else {
            let pos2: int = if pos >= files2.len() {
                files2.len() - 1
            } else {
                pos
            };
            repair(store, files2, pos2)
        }
    }
}

/// Attempts to load one candidate: reads its payload and caption from the
/// store and builds the item.  A decode failure is the only way to fail; a
/// missing image file reads as an empty payload, which does not decode.
pub fn try_load_image(store: &Store, file_name: &String) -> (r: Option<CaptionedImg>)
    ensures
        match r {
            Some(img) => loadable(store@, file_name@) && img@ == item_of(store@, file_name@),
            None => !loadable(store@, file_name@),
        },
{
    let (img_bytes, caption) = store.read(file_name);
    CaptionedImg::new(file_name.as_str(), caption.as_str(), img_bytes.as_slice())
}

/// Loads the candidate at `starting_pos`, repairing the list as it goes;
/// returns the loaded item — the placeholder when the list ran empty — and
/// the index it now sits at.  The exact outcome is [`repair`].
pub fn load_valid_image(store: &Store, files: &mut Vec<String>, starting_pos: usize) -> (r: (
    CaptionedImg,
    usize,
))
    requires
        starting_pos < old(files).len(),
    ensures
        ({
            let (fs, item, idx) = repair(store@, names_of(old(files)@), starting_pos as int);
            &&& names_of(final(files)@) == fs
            &&& r.0@ == item
            &&& r.1 as int == idx
        }),
        final(files).len() > 0 ==> r.1 < final(files).len(),
{
    let ghost orig = names_of(files@);
    let mut pos = starting_pos;
    loop
        invariant
            files.len() > 0,
            pos < files.len(),
            orig == names_of(old(files)@),
            repair(store@, names_of(files@), pos as int) == repair(store@, orig, starting_pos as int),
        decreases files.len(),
    {
        proof {
            assert(names_of(files@)[pos as int] == files@[pos as int]@);
        }
        match try_load_image(store, &files[pos]) {
            Some(img) => {
                return (img, pos);
            },
            None => {
                let ghost before = names_of(files@);
                files.remove(pos);
                proof {
                    assert(names_of(files@) =~= before.remove(pos as int));
                }
                if files.len() == 0 {
                    return (get_std_img(), 0);
                }
                if pos >= files.len() {
                    pos = files.len() - 1;
                }
            },
        }
    }
}

/// The item a movement handler returned, as a model value.
pub open spec fn opt_view(r: Option<CaptionedImg>) -> Option<ItemView> {
    match r {
        Some(img) => Some(img@),
        None => None,
    }
}

/// The common tail of a movement that delivered `img` from index `idx` of
/// `files1`: prefetch the neighbour one step beyond `idx` in `dir` — or
/// `idx` itself at the boundary — and place the position on the delivered
/// item, which the repairing prefetch may have shifted down onto the
/// prefetched index itself.
pub open spec fn finish_step(
    store: StoreView,
    files1: Seq<Seq<char>>,
    img: ItemView,
    idx: int,
    dir: Direction,
) -> (WorkerView, Option<ItemView>) {
    if files1.len() == 0 {
        (WorkerView { files: files1, position: None, slot: None, direction: dir }, Some(img))
    } else {
        let start: int = if dir == Direction::Forward {
            if idx + 1 < files1.len() {
                idx + 1
            } else {
                idx
            }
        } else {
            if idx > 0 {
                idx - 1
            } else {
                idx
            }
        };
        let (files2, pimg, pidx) = repair(store, files1, start);
        if files2.len() == 0 {
            (WorkerView { files: files2, position: None, slot: None, direction: dir }, Some(img))
        } else {
            let q: int = if pimg.name == img.name {
                pidx
            } else {
                idx
            };
            (
                WorkerView {
                    files: files2,
                    position: Some(q),
                    slot: Some(SlotView { item: pimg, index: pidx }),
                    direction: dir,
                },
                Some(img),
            )
        }
    }
}

/// One `Next` transition: nothing moves on an empty list or past the last
/// index; otherwise the position advances by one — onto index 0 on the very
/// first call — and the item there is delivered, straight from the slot when
/// it was prefetched for exactly that index in forward travel, freshly
/// loaded with repair otherwise.
pub open spec fn next_step(store: StoreView, w: WorkerView) -> (WorkerView, Option<ItemView>) {
    if w.files.len() == 0 {
        (w, None)
    } else {
        let np: int = match w.position {
            Some(p) => p + 1,
            None => 0,
        };
        if np >= w.files.len() {
            (w, None)
        } else {
            let (files1, img, idx) = match w.slot {
                Some(s) => if w.direction == Direction::Forward && s.index == np {
                    (w.files, s.item, np)
                } else {
                    repair(store, w.files, np)
                },
                None => repair(store, w.files, np),
            };
            finish_step(store, files1, img, idx, Direction::Forward)
        }
    }
}

/// One `Previous` transition, symmetric to [`next_step`]: nothing moves
/// before the first delivery, at index 0 or on an empty list; otherwise the
/// position steps back by one and the item there is delivered, straight from
/// the slot when it was prefetched for exactly that index in backward
/// travel.
pub open spec fn prev_step(store: StoreView, w: WorkerView) -> (WorkerView, Option<ItemView>) {
    match w.position {
        None => (w, None),
        Some(p) => {
            if p <= 0 || w.files.len() == 0 {
                (w, None)
            } else {
                let np: int = p - 1;
                if np >= w.files.len() {
                    (w, None)
                } else {
                    let (files1, img, idx) = match w.slot {
                        Some(s) => if w.direction == Direction::Backward && s.index == np {
                            (w.files, s.item, np)
                        } else {
                            repair(store, w.files, np)
                        },
                        None => repair(store, w.files, np),
                    };
                    finish_step(store, files1, img, idx, Direction::Backward)
                }
            }
        },
    }
}

/// The worker state right after construction over candidate list `files`:
/// the list repaired by the priming load, the position still before the
/// start, and the slot primed with the item at index 0 — ready for forward
/// travel — unless priming exhausted the list.
pub open spec fn init_worker(store: StoreView, files: Seq<Seq<char>>) -> WorkerView {
    let (fs, item, idx) = repair(store, files, 0);
    if fs.len() == 0 {
        WorkerView { files: fs, position: None, slot: None, direction: Direction::Forward }
    } else {
        WorkerView {
            files: fs,
            position: None,
            slot: Some(SlotView { item, index: idx }),
            direction: Direction::Forward,
        }
    }
}

/// The fatal misconfiguration: a navigator cannot be built over nothing.
#[derive(Clone, Copy, PartialEq, Eq, Structural, Debug)]
pub enum StartupError {
    /// No candidate names were found at startup.
    NoCandidates,
}

impl StartupError {
    /// A short account of the error for diagnostics.
    pub fn describe(&self) -> (r: &'static str)
        ensures
            r@ == "no candidate images found at startup"@,
    {
        "no candidate images found at startup"
    }
}

/// The prefetch slot: one pre-loaded item and the index it was loaded from.
struct PrefetchSlot {
    img: CaptionedImg,
    index: usize,
}

/// The navigator worker: owns the candidate list, the position, the prefetch
/// slot and the direction latch, and processes one command at a time.
pub struct Worker {
    file_list: Vec<String>,
    position: Option<usize>,
    slot: Option<PrefetchSlot>,
    direction: Direction,
}

impl View for Worker {
    type V = WorkerView;

    closed spec fn view(&self) -> WorkerView {
        WorkerView {
            files: names_of(self.file_list@),
            position: match self.position {
                Some(p) => Some(p as int),
                None => None,
            },
            slot: match self.slot {
                Some(s) => Some(SlotView { item: s.img@, index: s.index as int }),
                None => None,
            },
            direction: self.direction,
        }
    }
}

impl Worker {
    /// Builds the worker over a candidate list, priming the prefetch slot
    /// with the first loadable item.  An empty list is the one fatal
    /// misconfiguration: there is nothing to browse, so construction fails.
    pub fn new(store: &Store, file_list: Vec<String>) -> (r: Result<Worker, StartupError>)
        ensures
            match r {
                Ok(w) => file_list@.len() > 0 && w@ == init_worker(store@, names_of(file_list@)),
                Err(e) => file_list@.len() == 0 && e == StartupError::NoCandidates,
            },
    {
        if file_list.is_empty() {
            return Err(StartupError::NoCandidates);
        }
        let mut files = file_list;
        let (img, idx) = load_valid_image(store, &mut files, 0);
        if files.len() == 0 {
            Ok(Worker { file_list: files, position: None, slot: None, direction: Direction::Forward })
        } else {
            Ok(Worker {
                file_list: files,
                position: None,
                slot: Some(PrefetchSlot { img, index: idx }),
                direction: Direction::Forward,
            })
        }
    }

    /// The candidate names still held, in order.
    pub fn file_list(&self) -> (r: &Vec<String>)
        ensures
            names_of(r@) == self@.files,
    {
        &self.file_list
    }

    /// The index of the item last delivered, absent before the first
    /// delivery.
    pub fn position(&self) -> (r: Option<usize>)
        ensures
            match r {
                Some(p) => self@.position == Some(p as int),
                None => self@.position is None,
            },
    {
        self.position
    }

    /// The common tail of a movement: refill the slot for the new direction
    /// and place the position on the delivered item.
    fn refill(&mut self, store: &Store, img: &CaptionedImg, idx: usize, forward: bool)
        requires
            old(self)@.files.len() == 0 || idx < old(self)@.files.len(),
        ensures
            ({
                let dir = if forward {
                    Direction::Forward
                } else {
                    Direction::Backward
                };
                final(self)@ == finish_step(store@, old(self)@.files, img@, idx as int, dir).0
            }),
    {
        let dir = if forward {
            Direction::Forward
        } else {
            Direction::Backward
        };
        if self.file_list.len() == 0 {
            self.position = None;
            self.slot = None;
            self.direction = dir;
            return;
        }
        let start: usize = if forward {
            if idx + 1 < self.file_list.len() {
                idx + 1
            } else {
                idx
            }
        } else {
            if idx > 0 {
                idx - 1
            } else {
                idx
            }
        };
        let (pimg, pidx) = load_valid_image(store, &mut self.file_list, start);
        if self.file_list.len() == 0 {
            self.position = None;
            self.slot = None;
            self.direction = dir;
            return;
        }
        let q: usize = if pimg.name() == img.name() {
            pidx
        } else {
            idx
        };
        self.position = Some(q);
        self.slot = Some(PrefetchSlot { img: pimg, index: pidx });
        self.direction = dir;
    }

    /// Handles a `Next`: delivers the item one step toward later indices, or
    /// nothing at the end of the list.  The exact outcome is [`next_step`].
    pub fn handle_next(&mut self, store: &Store) -> (r: Option<CaptionedImg>)
        ensures
            final(self)@ == next_step(store@, old(self)@).0,
            opt_view(r) == next_step(store@, old(self)@).1,
            r is None <==> (old(self)@.files.len() == 0 || (match old(self)@.position {
                Some(p) => p + 1 >= old(self)@.files.len(),
                None => false,
            })),
    {
        if self.file_list.len() == 0 {
            return None;
        }
        let np: usize = match self.position {
            None => 0,
            Some(p) => {
                if p >= self.file_list.len() - 1 {
                    return None;
                }
                p + 1
            },
        };
        let consume: bool = if self.direction == Direction::Forward {
            match &self.slot {
                Some(s) => s.index == np,
                None => false,
            }
        } else {
            false
        };
        let delivered: (CaptionedImg, usize) = if consume {
            let s = self.slot.take().unwrap();
            (s.img, s.index)
        } else {
            self.slot = None;
            load_valid_image(store, &mut self.file_list, np)
        };
        let (img, idx) = delivered;
        self.refill(store, &img, idx, true);
        Some(img)
    }

    /// Handles a `Previous`: delivers the item one step toward earlier
    /// indices, or nothing before the start.  The exact outcome is
    /// [`prev_step`].
    pub fn handle_previous(&mut self, store: &Store) -> (r: Option<CaptionedImg>)
        ensures
            final(self)@ == prev_step(store@, old(self)@).0,
            opt_view(r) == prev_step(store@, old(self)@).1,
            r is None <==> (match old(self)@.position {
                Some(p) => p <= 0 || old(self)@.files.len() == 0 || p - 1 >= old(self)@.files.len(),
                None => true,
            }),
    {
        let p: usize = match self.position {
            None => {
                return None;
            },
            Some(p) => p,
        };
        if p == 0 {
            return None;
        }
        if self.file_list.len() == 0 {
            return None;
        }
        let np: usize = p - 1;
        if np >= self.file_list.len() {
            return None;
        }
        let consume: bool = if self.direction == Direction::Backward {
            match &self.slot {
                Some(s) => s.index == np,
                None => false,
            }
        } else {
            false
        };
        let delivered: (CaptionedImg, usize) = if consume {
            let s = self.slot.take().unwrap();
            (s.img, s.index)
        } else {
            self.slot = None;
            load_valid_image(store, &mut self.file_list, np)
        };
        let (img, idx) = delivered;
        self.refill(store, &img, idx, false);
        Some(img)
    }

    /// Processes one client command: replies exactly once for a movement
    /// command, and not at all for a save — whose caption lands in the store
    /// wholesale — or a stop.
    pub fn handle_command(&mut self, store: &mut Store, cmd: BufferCommand) -> (r: Option<
        BufferResult,
    >)
        requires
            old(store)@.wf(),
        ensures
            match cmd {
                BufferCommand::LoadNext => {
                    &&& *final(store) == *old(store)
                    &&& final(self)@ == next_step(old(store)@, old(self)@).0
                    &&& match next_step(old(store)@, old(self)@).1 {
                        Some(iv) => r matches Some(BufferResult::Next(img)) && img@ == iv,
                        None => r == Some(BufferResult::NoMove),
                    }
                },
                BufferCommand::LoadPrevious => {
                    &&& *final(store) == *old(store)
                    &&& final(self)@ == prev_step(old(store)@, old(self)@).0
                    &&& match prev_step(old(store)@, old(self)@).1 {
                        Some(iv) => r matches Some(BufferResult::Previous(img)) && img@ == iv,
                        None => r == Some(BufferResult::NoMove),
                    }
                },
                BufferCommand::Save(name, tags) => {
                    &&& *final(self) == *old(self)
                    &&& wrote(old(store)@, final(store)@, name@, tags@)
                    &&& r is None
                },
                BufferCommand::Stop => {
                    &&& *final(self) == *old(self)
                    &&& *final(store) == *old(store)
                    &&& r is None
                },
            },
    {
        match cmd {
            BufferCommand::LoadNext => match self.handle_next(&*store) {
                Some(img) => Some(BufferResult::Next(img)),
                None => Some(BufferResult::NoMove),
            },
            BufferCommand::LoadPrevious => match self.handle_previous(&*store) {
                Some(img) => Some(BufferResult::Previous(img)),
                None => Some(BufferResult::NoMove),
            },
            BufferCommand::Save(name, tags) => {
                store.write(&name, &tags);
                None
            },
            BufferCommand::Stop => None,
        }
    }
}

} // verus!
