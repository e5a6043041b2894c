use vstd::prelude::*;

use std::collections::HashMap;

use crate::digits::{spec_dec, usize_string};
use crate::kodansha::volume::Volume;
use crate::tui::nav::{
    select_next, select_prev, spec_clamp_selection, spec_select_next, spec_select_prev, Key,
};
use crate::tui::tree::{spec_get, spec_visible, Tree};

verus! {

broadcast use vstd::std_specs::hash::group_hash_axioms;

/// Where finished archives are written.
pub enum DownloadDestination {
    /// No destination known yet.
    Unset,
    /// The user is about to pick one.
    Selecting,
    /// Picked, but not yet persisted.
    New(String),
    /// The current destination.
    Current(String),
}

/// What the download panel is doing.
pub enum DownloadMode {
    Normal,
    Download,
    /// Browsing the filesystem tree for a destination, with the highlighted
    /// row.
    DestinationSelection(Tree, Option<usize>),
}

/// What the surrounding loop must do after a prerender step: persist the
/// picked destination, load the stored one, build the directory tree, or
/// start the pipelines of the planned volumes.
pub enum PrerenderAction {
    PersistDir(String),
    LoadDir,
    BuildTree,
    StartDownloads(Vec<usize>),
    Idle,
}

/// Folding progress reports into the per-volume display map: later reports
/// overwrite earlier ones of the same volume.
pub open spec fn spec_fold_progress(m: Map<u16, u8>, evs: Seq<(u16, u8)>) -> Map<u16, u8>
    decreases evs.len(),
{
    if evs.len() == 0 {
        m
    } else {
        spec_fold_progress(m.insert(evs[0].0, evs[0].1), evs.drop_first())
    }
}

/// `s` with its first occurrence of `x` removed.
pub open spec fn spec_remove_first(s: Seq<usize>, x: usize) -> Seq<usize>
    decreases s.len(),
{
    if s.len() == 0 {
        s
    } else if s[0] == x {
        s.drop_first()
    } else {
        seq![s[0]] + spec_remove_first(s.drop_first(), x)
    }
}

/// `sel` with its first entry that points at a volume with this id removed:
/// one download finishing removes its selection entry exactly once.
pub open spec fn spec_remove_completed(sel: Seq<usize>, vols: Seq<Volume>, id: u16) -> Seq<usize>
    decreases sel.len(),
{
    if sel.len() == 0 {
        sel
    } else if sel[0] < vols.len() && vols[sel[0] as int].id == id {
        sel.drop_first()
    } else {
        seq![sel[0]] + spec_remove_completed(sel.drop_first(), vols, id)
    }
}

/// Library index `i` belongs to the download plan: it is selected, and no
/// earlier selected index names a volume with the same id.
pub open spec fn spec_plan_admits(vols: Seq<Volume>, sel: Seq<usize>, i: int) -> bool {
    &&& 0 <= i < vols.len()
    &&& sel.contains(i as usize)
    &&& forall|j: int|
        0 <= j < i ==> !(sel.contains(j as usize) && #[trigger] vols[j].id == vols[i].id)
}

/// `plan` is the download plan for this library and selection: the selected
/// library indices in ascending order, keeping only the first index of each
/// volume id, so no volume id gets two pipelines.
pub open spec fn spec_is_plan(vols: Seq<Volume>, sel: Seq<usize>, plan: Seq<usize>) -> bool {
    &&& forall|a: int, b: int| 0 <= a < b < plan.len() ==> plan[a] < plan[b]
    &&& forall|k: int| 0 <= k < plan.len() ==> spec_plan_admits(vols, sel, #[trigger] plan[k] as int)
    &&& forall|i: int| spec_plan_admits(vols, sel, i) ==> plan.contains(i as usize)
}

/// No two entries of a download plan name the same volume id: one pipeline
/// per volume id, however often the volume was selected.
pub proof fn lemma_plan_unique_ids(vols: Seq<Volume>, sel: Seq<usize>, plan: Seq<usize>)
    requires
        spec_is_plan(vols, sel, plan),
    ensures
        forall|a: int, b: int|
            0 <= a < b < plan.len() ==> vols[plan[a] as int].id != vols[plan[b] as int].id,
{
    assert forall|a: int, b: int|
        0 <= a < b < plan.len() implies vols[plan[a] as int].id != vols[plan[b] as int].id by {
        assert(spec_plan_admits(vols, sel, plan[a] as int));
        assert(spec_plan_admits(vols, sel, plan[b] as int));
        assert(plan[a] < plan[b]);
        if vols[plan[a] as int].id == vols[plan[b] as int].id {
            assert(sel.contains(plan[a]));
            assert(!(sel.contains(plan[a]) && vols[plan[a] as int].id == vols[plan[b] as int].id));
        }
    }
}

/// Whether a selection list holds an index.
pub fn contains_index(v: &Vec<usize>, x: usize) -> (r: bool)
    ensures
        r <==> v@.contains(x),
{
    let mut i: usize = 0;
    while i < v.len()
        invariant
            i <= v@.len(),
            forall|j: int| 0 <= j < i ==> v@[j] != x,
        decreases v@.len() - i,
    {
        if v[i] == x {
            return true;
        }
        i = i + 1;
    }
    false
}

/// The file a finished volume is written to: its name with the archive
/// extension.
pub open spec fn spec_epub_file_name(name: Seq<char>) -> Seq<char> {
    name + ".epub"@
}

/// Renders the archive file name for a volume name.
pub fn epub_file_name(name: &str) -> (s: String)
    ensures
        s@ == spec_epub_file_name(name@),
{
    name.to_owned().concat(".epub")
}

/// The progress prefix shown before a queued volume's name.
pub open spec fn spec_percent_label(p: int) -> Seq<char> {
    "["@ + spec_dec(p) + "%] "@
}

/// Renders the progress prefix, e.g. for 50 percent: `[50%] `.
pub fn percent_label(p: u8) -> (s: String)
    ensures
        s@ == spec_percent_label(p as int),
{
    let s = "[".to_owned().concat(usize_string(p as usize).as_str()).concat("%] ");
    proof {
        assert(s@ =~= spec_percent_label(p as int));
    }
    s
}

/// The download panel: the selection set, the per-volume progress map the
/// reports fold into, the destination, and the panel's mode.
pub struct Download {
    pub mode: DownloadMode,
    pub destination: DownloadDestination,
    pub selected: Vec<usize>,
    pub percents: HashMap<u16, u8>,
}

impl Download {
    /// The selection set: library indices queued for download.
    pub open spec fn selection(&self) -> Seq<usize> {
        self.selected@
    }

    /// The last progress report of each volume.
    pub open spec fn progress(&self) -> Map<u16, u8> {
        self.percents@
    }

    /// An empty panel: nothing selected, nothing running, no destination.
    pub fn new() -> (d: Download)
        ensures
            d.mode is Normal,
            d.destination is Unset,
            d.selection() == Seq::<usize>::empty(),
            d.progress() == Map::<u16, u8>::empty(),
    {
        Download {
            mode: DownloadMode::Normal,
            destination: DownloadDestination::Unset,
            selected: Vec::new(),
            percents: HashMap::new(),
        }
    }

    /// The selection set, for the library panel to display.
    pub fn get_selections(&self) -> (v: &Vec<usize>)
        ensures
            v@ == self.selection(),
    {
        &self.selected
    }

    /// The last progress report of one volume, if any came.
    pub fn percent_for(&self, id: u16) -> (r: Option<u8>)
        ensures
            self.progress().dom().contains(id) ==> r == Some(self.progress()[id]),
            !self.progress().dom().contains(id) ==> r is None,
    {
        match self.percents.get(&id) {
            Some(p) => Some(*p),
            None => None,
        }
    }

    /// Folds a burst of progress reports into the display map: for each
    /// volume the last report wins, and other volumes keep theirs.
    pub fn drain_progress(&mut self, events: &Vec<(u16, u8)>)
        ensures
            final(self).progress() == spec_fold_progress(old(self).progress(), events@),
            final(self).mode == old(self).mode,
            final(self).destination == old(self).destination,
            final(self).selection() == old(self).selection(),
    {
        let ghost evs = events@;
        let mut i: usize = 0;
        proof {
            assert(evs.skip(0) =~= evs);
        }
        while i < events.len()
            invariant
                i <= evs.len(),
                evs == events@,
                spec_fold_progress(old(self).progress(), evs) == spec_fold_progress(
                    self.percents@,
                    evs.skip(i as int),
                ),
                self.mode == old(self).mode,
                self.destination == old(self).destination,
                self.selected == old(self).selected,
            decreases evs.len() - i,
        {
            let (id, p) = events[i];
            self.percents.insert(id, p);
            proof {
                assert(evs.skip(i as int)[0] == (id, p));
                assert(evs.skip(i as int).drop_first() =~= evs.skip(i + 1));
            }
            i = i + 1;
        }
        proof {
            assert(evs.skip(evs.len() as int) =~= Seq::<(u16, u8)>::empty());
        }
    }

    /// Adds an index to the selection set, or removes it if it was already
    /// selected (its first occurrence; the set never holds one twice).
    pub fn toggle_selected(&mut self, index: usize)
        ensures
            old(self).selection().contains(index) ==> final(self).selection()
                == spec_remove_first(old(self).selection(), index),
            !old(self).selection().contains(index) ==> final(self).selection() == old(self).selection().push(index),
            final(self).mode == old(self).mode,
            final(self).destination == old(self).destination,
            final(self).progress() == old(self).progress(),
    {
        let ghost sel = self.selected@;
        let mut i: usize = 0;
        proof {
            assert(sel.skip(0) =~= sel);
            assert(sel.subrange(0, 0) + spec_remove_first(sel.skip(0), index) =~= spec_remove_first(
                sel,
                index,
            ));
        }
        while i < self.selected.len()
            invariant
                i <= sel.len(),
                sel == self.selected@,
                sel == old(self).selection(),
                self.mode == old(self).mode,
                self.destination == old(self).destination,
                self.percents == old(self).percents,
                forall|j: int| 0 <= j < i ==> sel[j] != index,
                spec_remove_first(sel, index) == sel.subrange(0, i as int)
                    + spec_remove_first(sel.skip(i as int), index),
            decreases sel.len() - i,
        {
            proof {
                assert(sel.skip(i as int)[0] == sel[i as int]);
                assert(sel.skip(i as int).drop_first() =~= sel.skip(i + 1));
            }
            if self.selected[i] == index {
                self.selected.remove(i);
                proof {
                    assert(self.selected@ =~= sel.subrange(0, i as int) + sel.skip(i + 1));
                    assert(sel.contains(index));
                }
                return ;
            }
            proof {
                assert(sel.subrange(0, i + 1) =~= sel.subrange(0, i as int) + seq![sel[i as int]]);
                assert(sel.subrange(0, i as int) + spec_remove_first(sel.skip(i as int), index)
                    =~= sel.subrange(0, i + 1) + spec_remove_first(sel.skip(i + 1), index));
            }
            i = i + 1;
        }
        proof {
            assert(forall|j: int| 0 <= j < sel.len() ==> sel[j] != index);
            assert(!sel.contains(index));
        }
        self.selected.push(index);
    }

    /// Removes the selection entry of a finished volume, exactly once: the
    /// first selected index naming this volume id, if any.
    pub fn finish_volume(&mut self, volumes: &Vec<Volume>, id: u16) -> (removed: bool)
        ensures
            final(self).selection() == spec_remove_completed(
                old(self).selection(),
                volumes@,
                id,
            ),
            removed <==> final(self).selection() != old(self).selection(),
            final(self).mode == old(self).mode,
            final(self).destination == old(self).destination,
            final(self).progress() == old(self).progress(),
    {
        let ghost sel = self.selected@;
        let mut i: usize = 0;
        proof {
            assert(sel.skip(0) =~= sel);
            assert(sel.subrange(0, 0) + spec_remove_completed(sel.skip(0), volumes@, id)
                =~= spec_remove_completed(sel, volumes@, id));
        }
        while i < self.selected.len()
            invariant
                i <= sel.len(),
                sel == self.selected@,
                sel == old(self).selection(),
                self.mode == old(self).mode,
                self.destination == old(self).destination,
                self.percents == old(self).percents,
                forall|j: int|
                    0 <= j < i ==> !(sel[j] < volumes@.len() && (#[trigger] volumes@[sel[j] as int]).id
                        == id),
                spec_remove_completed(sel, volumes@, id) == sel.subrange(0, i as int)
                    + spec_remove_completed(sel.skip(i as int), volumes@, id),
            decreases sel.len() - i,
        {
            proof {
                assert(sel.skip(i as int)[0] == sel[i as int]);
                assert(sel.skip(i as int).drop_first() =~= sel.skip(i + 1));
            }
            let s = self.selected[i];
            if s < volumes.len() && volumes[s].id == id {
                self.selected.remove(i);
                proof {
                    assert(self.selected@ =~= sel.subrange(0, i as int) + sel.skip(i + 1));
                    assert(self.selected@.len() != sel.len());
                }
                return true;
            }
            proof {
                assert(sel.subrange(0, i + 1) =~= sel.subrange(0, i as int) + seq![sel[i as int]]);
                assert(sel.subrange(0, i as int) + spec_remove_completed(
                    sel.skip(i as int),
                    volumes@,
                    id,
                ) =~= sel.subrange(0, i + 1) + spec_remove_completed(sel.skip(i + 1), volumes@, id));
            }
            i = i + 1;
        }
        proof {
            assert(sel.skip(sel.len() as int) =~= Seq::<usize>::empty());
            assert(sel.subrange(0, sel.len() as int) =~= sel);
            assert(self.selected@ == spec_remove_completed(sel, volumes@, id));
        }
        false
    }

    /// The download plan: the selected library indices, ascending, with only
    /// the first index of each volume id kept, so a volume selected twice
    /// still gets one pipeline.
    pub fn selection_plan(&self, volumes: &Vec<Volume>) -> (plan: Vec<usize>)
        ensures
            spec_is_plan(volumes@, self.selection(), plan@),
    {
        let mut plan: Vec<usize> = Vec::new();
        let mut i: usize = 0;
        while i < volumes.len()
            invariant
                i <= volumes@.len(),
                forall|a: int, b: int| 0 <= a < b < plan@.len() ==> plan@[a] < plan@[b],
                forall|k: int| 0 <= k < plan@.len() ==> plan@[k] < i,
                forall|k: int|
                    0 <= k < plan@.len() ==> spec_plan_admits(
                        volumes@,
                        self.selection(),
                        #[trigger] plan@[k] as int,
                    ),
                forall|v: int|
                    0 <= v < i && spec_plan_admits(volumes@, self.selection(), v) ==> plan@.contains(
                        v as usize,
                    ),
            decreases volumes@.len() - i,
        {
            if contains_index(&self.selected, i) {
                let mut duplicate = false;
                let mut j: usize = 0;
                while j < i
                    invariant
                        j <= i,
                        i < volumes@.len(),
                        duplicate ==> !spec_plan_admits(volumes@, self.selection(), i as int),
                        !duplicate ==> forall|jj: int|
                            0 <= jj < j ==> !(self.selection().contains(jj as usize)
                                && (#[trigger] volumes@[jj]).id == volumes@[i as int].id),
                    decreases i - j,
                {
                    if !duplicate && contains_index(&self.selected, j) && volumes[j].id
                        == volumes[i].id {
                        duplicate = true;
                    }
                    j = j + 1;
                }
                if !duplicate {
                    let ghost before = plan@;
                    plan.push(i);
                    proof {
                        assert(plan@ == before.push(i));
                        assert(plan@[plan@.len() - 1] == i);
                        assert forall|v: int|
                            0 <= v < i && spec_plan_admits(volumes@, self.selection(), v) implies plan@.contains(
                            v as usize,
                        ) by {
                            let k = choose|k: int|
                                0 <= k < before.len() && before[k] == v as usize;
                            assert(plan@[k] == v as usize);
                        }
                    }
                } else {
                    proof {
                        assert(!spec_plan_admits(volumes@, self.selection(), i as int));
                    }
                }
            }
            i = i + 1;
        }
        plan
    }

    /// One prerender step: what the panel decides to do next, given the
    /// library. Picking up a freshly chosen destination, asking for the
    /// stored one, asking for the directory tree, or — once a destination
    /// stands and a download was requested — handing out the download plan
    /// and returning to normal mode.
    pub fn prerender(&mut self, volumes: &Vec<Volume>) -> (r: PrerenderAction)
        ensures
            final(self).selection() == old(self).selection(),
            final(self).progress() == old(self).progress(),
            (old(self).destination matches DownloadDestination::New(url) ==> (r matches
                PrerenderAction::PersistDir(u) && u@ == url@) && (final(self).destination matches
                DownloadDestination::Current(c) && c@ == url@) && final(self).mode == old(self).mode),
            (old(self).destination is Unset ==> r is LoadDir && final(self).destination == old(self).destination && final(self).mode == old(self).mode),
            (old(self).destination is Selecting && old(self).mode is Download ==> r is BuildTree
                && final(self).destination == old(self).destination && final(self).mode == old(self).mode),
            (old(self).destination is Current && old(self).mode is Download ==> (r matches
                PrerenderAction::StartDownloads(plan) && spec_is_plan(
                volumes@,
                old(self).selection(),
                plan@,
            ) && final(self).mode is Normal && final(self).destination == old(self).destination)),
            (!(old(self).destination is New) && !(old(self).destination is Unset) && !(old(self).mode is Download) ==> r is Idle && final(self).destination == old(self).destination
                && final(self).mode == old(self).mode),
    {
        let picked = match &self.destination {
            DownloadDestination::New(url) => Some(crate::text::clone_string(url)),
            _ => None,
        };
        if let Some(url) = picked {
            self.destination = DownloadDestination::Current(crate::text::clone_string(&url));
            return PrerenderAction::PersistDir(url);
        }
        match &self.destination {
            DownloadDestination::Unset => {
                return PrerenderAction::LoadDir;
            },
            DownloadDestination::Selecting => {
                if let DownloadMode::Download = &self.mode {
                    return PrerenderAction::BuildTree;
                }
                PrerenderAction::Idle
            },
            DownloadDestination::Current(_) => {
                if let DownloadMode::Download = &self.mode {
                    let plan = self.selection_plan(volumes);
                    self.mode = DownloadMode::Normal;
                    return PrerenderAction::StartDownloads(plan);
                }
                PrerenderAction::Idle
            },
            DownloadDestination::New(_) => {
                // Handled above.
                PrerenderAction::Idle
            },
        }
    }

    /// Takes the stored destination in, if one was found on disk.
    pub fn destination_loaded(&mut self, dir: Option<String>)
        ensures
            (old(self).destination is Unset ==> (dir matches Some(d) ==> final(self).destination
                == DownloadDestination::Current(d))),
            !(old(self).destination is Unset && dir is Some) ==> final(self).destination == old(self).destination,
            final(self).mode == old(self).mode,
            final(self).selection() == old(self).selection(),
            final(self).progress() == old(self).progress(),
    {
        if let DownloadDestination::Unset = &self.destination {
            if let Some(d) = dir {
                self.destination = DownloadDestination::Current(d);
            }
        }
    }

    /// Takes the built directory tree in and starts browsing it, with the
    /// working directory as the standing destination.
    pub fn tree_built(&mut self, tree: Tree, cwd: String)
        ensures
            final(self).mode == DownloadMode::DestinationSelection(tree, None::<usize>),
            final(self).destination == DownloadDestination::Current(cwd),
            final(self).selection() == old(self).selection(),
            final(self).progress() == old(self).progress(),
    {
        self.mode = DownloadMode::DestinationSelection(tree, None);
        self.destination = DownloadDestination::Current(cwd);
    }

    /// One key press: `f` opens destination selection, `d` asks for the
    /// download (only with a destination standing and something selected),
    /// and in the browser Enter picks the highlighted directory while the
    /// arrow keys move the highlight, wrapping around. Unhandled keys —
    /// including the fold/unfold key, which needs the filesystem — are
    /// declined.
    pub fn new_event(&mut self, normal_mode: &mut bool, key: Key) -> (handled: bool)
        ensures
            final(self).selection() == old(self).selection(),
            final(self).progress() == old(self).progress(),
            (old(self).mode is Normal && key == Key::Char('f') ==> handled && final(self).mode
                is Download && final(self).destination is Selecting && !*final(normal_mode)),
            (old(self).mode is Normal && key == Key::Char('d') ==> {
                &&& (handled <==> old(self).destination is Current && old(self).selection().len()
                    > 0)
                &&& (handled ==> final(self).mode is Download)
                &&& (!handled ==> final(self).mode == old(self).mode)
                &&& final(self).destination == old(self).destination
            }),
            ((key == Key::Char('j') || key == Key::Down) ==> (old(self).mode matches
                DownloadMode::DestinationSelection(t, s) ==> handled && (final(self).mode matches
                DownloadMode::DestinationSelection(t2, s2) && t2 == t && s2 == spec_select_next(
                spec_clamp_selection(s, spec_visible(t).len() as int),
                spec_visible(t).len() as int,
            )) && final(self).destination == old(self).destination)),
            ((key == Key::Char('k') || key == Key::Up) ==> (old(self).mode matches
                DownloadMode::DestinationSelection(t, s) ==> handled && (final(self).mode matches
                DownloadMode::DestinationSelection(t2, s2) && t2 == t && s2 == spec_select_prev(
                spec_clamp_selection(s, spec_visible(t).len() as int),
                spec_visible(t).len() as int,
            )) && final(self).destination == old(self).destination)),
            (key == Key::Enter ==> (old(self).mode matches DownloadMode::DestinationSelection(
                t,
                state,
            ) ==> {
                &&& handled
                &&& final(self).mode is Normal
                &&& *final(normal_mode)
                &&& (match state {
                    Some(idx) => (match spec_get(t, idx as int) {
                        Ok(node) => final(self).destination matches DownloadDestination::New(p)
                            && p@ == node.path@,
                        Err(_) => final(self).destination == old(self).destination,
                    }),
                    None => final(self).destination == old(self).destination,
                })
            })),
    {
        match key {
            Key::Char('f') => {
                if let DownloadMode::Normal = &self.mode {
                    self.mode = DownloadMode::Download;
                    self.destination = DownloadDestination::Selecting;
                    *normal_mode = false;
                    return true;
                }
            },
            Key::Char('d') => {
                if let DownloadMode::Normal = &self.mode {
                    let has_destination = match &self.destination {
                        DownloadDestination::Current(_) => true,
                        _ => false,
                    };
                    if has_destination && self.selected.len() > 0 {
                        self.mode = DownloadMode::Download;
                        return true;
                    }
                    return false;
                }
            },
            Key::Enter => {
                let picked: Option<Option<String>> = match &self.mode {
                    DownloadMode::DestinationSelection(tree, state) => {
                        match state {
                            Some(idx) => {
                                let mut index = *idx;
                                match tree.get(&mut index) {
                                    Some(node) => Some(
                                        Some(crate::text::clone_string(node.path())),
                                    ),
                                    None => Some(None),
                                }
                            },
                            None => Some(None),
                        }
                    },
                    _ => None,
                };
                if let Some(choice) = picked {
                    if let Some(path) = choice {
                        self.destination = DownloadDestination::New(path);
                    }
                    self.mode = DownloadMode::Normal;
                    *normal_mode = true;
                    return true;
                }
            },
            Key::Char('j') | Key::Down => {
                if let DownloadMode::DestinationSelection(tree, state) = &mut self.mode {
                    let rows = tree.visible_paths();
                    let count = rows.len();
                    proof {
                        assert(rows@.map_values(|x: String| x@).len() == rows@.len());
                        assert(spec_visible(*tree).map_values(|t: Tree| t.path@).len()
                            == spec_visible(*tree).len());
                        assert(count == spec_visible(*tree).len());
                    }
                    let current = match state {
                        Some(s) => if *s < count {
                            Some(*s)
                        } else {
                            None
                        },
                        None => None,
                    };
                    *state = select_next(current, count);
                    return true;
                }
            },
            Key::Char('k') | Key::Up => {
                if let DownloadMode::DestinationSelection(tree, state) = &mut self.mode {
                    let rows = tree.visible_paths();
                    let count = rows.len();
                    proof {
                        assert(rows@.map_values(|x: String| x@).len() == rows@.len());
                        assert(spec_visible(*tree).map_values(|t: Tree| t.path@).len()
                            == spec_visible(*tree).len());
                        assert(count == spec_visible(*tree).len());
                    }
                    let current = match state {
                        Some(s) => if *s < count {
                            Some(*s)
                        } else {
                            None
                        },
                        None => None,
                    };
                    *state = select_prev(current, count);
                    return true;
                }
            },
            _ => {},
        }
        false
    }
}

/// Splits a download plan into the groups that are started together: at
/// most three volumes run side by side, as the coordinator staggers its
/// spawns.
pub fn spawn_batches(plan: &Vec<usize>) -> (batches: Vec<Vec<usize>>)
    ensures
        batches@.map_values(|b: Vec<usize>| b@).flatten() == plan@,
        forall|k: int|
            0 <= k < batches@.len() ==> 1 <= (#[trigger] batches@[k])@.len() <= 3,
{
    let n: usize = plan.len();
    let mut batches: Vec<Vec<usize>> = Vec::new();
    let mut i: usize = 0;
    proof {
        assert(plan@.subrange(0, 0) =~= Seq::<usize>::empty());
        assert(batches@.map_values(|b: Vec<usize>| b@).flatten() =~= Seq::<usize>::empty());
    }
    while i < n
        invariant
            n == plan@.len(),
            i <= n,
            batches@.map_values(|b: Vec<usize>| b@).flatten() == plan@.subrange(0, i as int),
            forall|k: int|
                0 <= k < batches@.len() ==> 1 <= (#[trigger] batches@[k])@.len() <= 3,
        decreases plan@.len() - i,
    {
        let ghost before = batches@;
        let remaining = n - i;
        let take: usize = if remaining < 3 {
            remaining
        } else {
            3
        };
        let mut group: Vec<usize> = Vec::new();
        let mut k: usize = 0;
        while k < take
            invariant
                k <= take,
                n == plan@.len(),
                i + take <= n,
                group@ == plan@.subrange(i as int, i + k),
            decreases take - k,
        {
            group.push(plan[i + k]);
            proof {
                assert(group@ =~= plan@.subrange(i as int, i + k + 1));
            }
            k = k + 1;
        }
        batches.push(group);
        proof {
            broadcast use vstd::prelude::Seq::lemma_flatten_push;

            assert(batches@.map_values(|b: Vec<usize>| b@) =~= before.map_values(
                |b: Vec<usize>| b@,
            ).push(plan@.subrange(i as int, i + take)));
            assert(plan@.subrange(0, i as int) + plan@.subrange(i as int, i + take)
                =~= plan@.subrange(0, i + take));
        }
        i = i + take;
    }
    proof {
        assert(plan@.subrange(0, plan@.len() as int) =~= plan@);
    }
    batches
}


} // verus!
