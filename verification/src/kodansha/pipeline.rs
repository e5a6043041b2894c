use vstd::prelude::*;

use vstd::multiset::Multiset;

use crate::kodansha::epub::{spec_image_path_pair, VolumeArchive, MAX_IMAGE_BYTES};
use crate::kodansha::page::{
    lemma_image_path_injective, lemma_image_path_wf, lemma_image_xhtml_distinct,
    lemma_xhtml_path_injective, lemma_xhtml_path_wf, spec_image_path, spec_xhtml_path, RemotePage,
};
use crate::kodansha::volume::Volume;
use crate::progress::{lemma_percent_monotone, lemma_percent_range, percent, spec_percent};

verus! {

/// Progress monotonicity: a volume's successive reports carry the percent
/// of its completed pages, so as `completed` only ever grows, the reported
/// values never decrease; and the report after the last page is 100.
pub proof fn lemma_progress_monotone(c1: int, c2: int, total: int)
    requires
        0 < total,
        0 <= c1 <= c2 <= total,
    ensures
        spec_percent(c1, total) <= spec_percent(c2, total),
        spec_percent(total, total) == 100,
{
    lemma_percent_monotone(c1, c2, total);
    lemma_percent_range(total, total);
}

/// Why one volume's pipeline stopped: the page list was unobtainable, one
/// page's bytes were unobtainable, or the archive builder rejected a step.
/// Each failure is local to its own volume.
#[derive(Clone, Copy, PartialEq, Eq, Structural, Debug)]
pub enum PipelineError {
    Listing,
    Fetch,
    Assembly,
}

/// Where one volume's pipeline stands.
#[derive(Clone, Copy, PartialEq, Eq, Structural, Debug)]
pub enum PipelineStage {
    /// Waiting for the page list.
    Listing,
    /// Fetching and assembling pages batch by batch.
    Fetching,
    /// A step failed; the partial archive is discarded, never written.
    Failed,
}

/// One page's fetch outcome, handed back to the pipeline: the page's index
/// and its bytes, or nothing if the fetch failed.
pub struct FetchedPage {
    pub index: usize,
    pub bytes: Option<Vec<u8>>,
}

/// The page indices 0, 1, ..., n-1: the content entries of an archive that
/// has registered the cover and the first n-1 content pages.
pub open spec fn spec_entry_range(n: int) -> Seq<usize> {
    Seq::new(n as nat, |i: int| i as usize)
}

/// The archive paths an assembly that has finished pages 0 through `c`
/// occupies: each page's image and markup path.
pub open spec fn spec_used_upto(c: int) -> Set<Seq<char>> {
    Set::new(
        |p: Seq<char>|
            exists|k: int|
                0 <= k <= c && (p == spec_image_path(k) || p == spec_xhtml_path(k)),
    )
}

/// The image paths of the given page indices.
pub open spec fn spec_image_paths_of(s: Seq<usize>) -> Set<Seq<char>> {
    Set::new(
        |p: Seq<char>| exists|j: int| 0 <= j < s.len() && p == spec_image_path(#[trigger] s[j] as int),
    )
}

/// The markup paths of the page indices from `lo` through `hi`.
pub open spec fn spec_xhtml_paths_between(lo: int, hi: int) -> Set<Seq<char>> {
    Set::new(|p: Seq<char>| exists|m: int| lo <= m <= hi && p == spec_xhtml_path(m))
}

/// No page's canonical path collides with the scaffolding files the final
/// serialization writes.
proof fn lemma_reserved_free(c: int)
    requires
        0 <= c <= 0xFFFF,
    ensures
        !spec_used_upto(c).contains("stylesheet.css"@),
        !spec_used_upto(c).contains("content.opf"@),
        !spec_used_upto(c).contains("toc.ncx"@),
        !spec_used_upto(c).contains("nav.xhtml"@),
{
    reveal_strlit("stylesheet.css");
    reveal_strlit("content.opf");
    reveal_strlit("toc.ncx");
    reveal_strlit("nav.xhtml");
    assert forall|k: int| 0 <= k <= c implies spec_image_path(k)[0] == 'i' && spec_xhtml_path(k)[0]
        == 'p' && spec_image_path(k).len() > 0 && spec_xhtml_path(k).len() > 0 by {
        lemma_image_path_wf(k);
        lemma_xhtml_path_wf(k);
    }
}

/// Drives one volume's download: page list in, then page bytes batch by
/// batch, with the archive growing in strictly ascending page order and a
/// progress report after every batch. The cover (page index 0) goes first,
/// alone; the `page_count` content pages follow in batches of at most
/// `batch_size`.
pub struct VolumePipeline {
    volume_id: u16,
    page_count: u16,
    batch_size: u16,
    stage: PipelineStage,
    cover_done: bool,
    completed: u16,
    pages: Vec<RemotePage>,
    archive: VolumeArchive,
}

impl VolumePipeline {
    /// The id of the volume this pipeline downloads.
    pub closed spec fn spec_volume_id(&self) -> u16 {
        self.volume_id
    }

    /// How many content pages (past the cover) the volume has.
    pub closed spec fn total(&self) -> u16 {
        self.page_count
    }

    /// The most pages ever fetched concurrently.
    pub closed spec fn batch_limit(&self) -> u16 {
        self.batch_size
    }

    /// Where the pipeline stands.
    pub closed spec fn stage(&self) -> PipelineStage {
        self.stage
    }

    /// Whether the cover has been fetched and assembled.
    pub closed spec fn cover_done(&self) -> bool {
        self.cover_done
    }

    /// How many content pages are fully assembled.
    pub closed spec fn completed(&self) -> u16 {
        self.completed
    }

    /// The page list, once obtained.
    pub closed spec fn listing(&self) -> Seq<RemotePage> {
        self.pages@
    }

    /// The content entries registered in the archive so far.
    pub closed spec fn entries(&self) -> Seq<usize> {
        self.archive.content_entries()
    }

    /// The image resources stored in the archive so far.
    pub closed spec fn resources(&self) -> Multiset<(Seq<char>, bool)> {
        self.archive.resources()
    }

    /// The archive metadata, fixed at construction.
    pub closed spec fn metadata(&self) -> Map<Seq<char>, Seq<char>> {
        self.archive.metadata()
    }

    /// How many pages the next batch holds: at most `batch_size`, and never
    /// more than are left.
    pub open spec fn next_batch_len(&self) -> int {
        if !self.cover_done() {
            1
        } else if self.batch_limit() <= self.total() - self.completed() {
            self.batch_limit() as int
        } else {
            self.total() - self.completed()
        }
    }

    /// The page indices of the next content batch.
    pub open spec fn next_batch_indices(&self) -> Seq<usize> {
        Seq::new(
            self.next_batch_len() as nat,
            |k: int| (self.completed() + 1 + k) as usize,
        )
    }

    /// The pipeline's invariant: a well-formed archive whose entries are
    /// exactly pages 0 through `completed`, a plausible page list while
    /// fetching, and counters in range.
    pub closed spec fn wf(&self) -> bool {
        &&& self.archive.wf()
        &&& self.batch_size >= 1
        &&& self.completed <= self.page_count
        &&& !self.cover_done ==> self.completed == 0
        &&& self.entries() == if self.cover_done {
            spec_entry_range(self.completed + 1)
        } else {
            Seq::<usize>::empty()
        }
        &&& self.archive.used_paths() == if self.cover_done {
            spec_used_upto(self.completed as int)
        } else {
            Set::<Seq<char>>::empty()
        }
        &&& self.stage is Fetching ==> {
            &&& self.pages@.len() == self.page_count + 1
            &&& forall|i: int|
                0 <= i < self.pages@.len() ==> (#[trigger] self.pages@[i]).page_number == i + 1
        }
        &&& self.stage is Listing ==> !self.cover_done
    }

    /// Opens the pipeline for one volume: the archive is created and its
    /// metadata recorded once, before any page, and the pipeline waits for
    /// the page list.
    pub fn new(volume: &Volume, batch_size: u16) -> (r: Result<VolumePipeline, PipelineError>)
        requires
            batch_size >= 1,
        ensures
            r is Ok,
            (r matches Ok(p) ==> {
                &&& p.wf()
                &&& p.stage() is Listing
                &&& p.spec_volume_id() == volume.id
                &&& p.total() == volume.page_count
                &&& p.batch_limit() == batch_size
                &&& !p.cover_done()
                &&& p.completed() == 0
                &&& p.entries() == Seq::<usize>::empty()
                &&& p.resources() == Multiset::<(Seq<char>, bool)>::empty()
                &&& p.metadata() == VolumeArchive::spec_initial_metadata(
                    volume.volume_name@,
                    volume.description@,
                )
            }),
    {
        let archive = match VolumeArchive::new(volume.volume_name.as_str(), volume.description.as_str()) {
            Ok(a) => a,
            Err(_) => {
                return Err(PipelineError::Assembly);
            },
        };
        Ok(
            VolumePipeline {
                volume_id: volume.id,
                page_count: volume.page_count,
                batch_size,
                stage: PipelineStage::Listing,
                cover_done: false,
                completed: 0,
                pages: Vec::new(),
                archive,
            },
        )
    }

    /// Takes the page list in. It is accepted exactly when it lists the
    /// cover and every content page once, in order: `page_count + 1` pages
    /// whose 1-based page numbers run 1, 2, .... Anything else fails this
    /// volume with a listing error.
    pub fn pages_listed(&mut self, pages: Vec<RemotePage>) -> (r: Result<(), PipelineError>)
        requires
            old(self).wf(),
            old(self).stage() is Listing,
        ensures
            final(self).wf(),
            ({
                let ok = pages@.len() == old(self).total() + 1 && (forall|i: int|
                    0 <= i < pages@.len() ==> (#[trigger] pages@[i]).page_number == i + 1);
                &&& (r is Ok <==> ok)
                &&& (r is Err ==> r == Err::<(), PipelineError>(PipelineError::Listing))
            }),
            r is Ok ==> final(self).stage() is Fetching && final(self).listing() == pages@,
            r is Err ==> final(self).stage() is Failed,
            final(self).spec_volume_id() == old(self).spec_volume_id(),
            final(self).total() == old(self).total(),
            final(self).batch_limit() == old(self).batch_limit(),
            final(self).completed() == old(self).completed(),
            !final(self).cover_done(),
            final(self).entries() == old(self).entries(),
            final(self).resources() == old(self).resources(),
            final(self).metadata() == old(self).metadata(),
    {
        let expected: usize = self.page_count as usize + 1;
        if pages.len() != expected {
            self.stage = PipelineStage::Failed;
            return Err(PipelineError::Listing);
        }
        let mut i: usize = 0;
        while i < pages.len()
            invariant
                i <= pages@.len(),
                forall|j: int| 0 <= j < i ==> (#[trigger] pages@[j]).page_number == j + 1,
                old(self).wf(),
                old(self).stage() is Listing,
                self.volume_id == old(self).volume_id,
                self.page_count == old(self).page_count,
                self.batch_size == old(self).batch_size,
                self.stage == old(self).stage,
                self.cover_done == old(self).cover_done,
                self.completed == old(self).completed,
                self.pages == old(self).pages,
                self.archive == old(self).archive,
            decreases pages@.len() - i,
        {
            if pages[i].page_number != i + 1 {
                self.stage = PipelineStage::Failed;
                return Err(PipelineError::Listing);
            }
            i = i + 1;
        }
        self.pages = pages;
        self.stage = PipelineStage::Fetching;
        Ok(())
    }

    /// The pages to fetch next, all at once: the cover alone first, then the
    /// content pages in batches of at most `batch_size`. An empty batch
    /// means every page is assembled and the archive is ready to finish.
    pub fn next_batch(&self) -> (b: Vec<RemotePage>)
        requires
            self.wf(),
            self.stage() is Fetching,
        ensures
            b@.len() <= self.batch_limit(),
            !self.cover_done() ==> b@ == seq![self.listing()[0]],
            self.cover_done() ==> b@ == self.listing().subrange(
                self.completed() + 1,
                self.completed() + 1 + self.next_batch_len(),
            ),
            self.cover_done() ==> b@.len() == self.next_batch_len(),
            b@.len() == 0 <==> (self.cover_done() && self.completed() == self.total()),
    {
        let mut batch: Vec<RemotePage> = Vec::new();
        if !self.cover_done {
            batch.push(self.pages[0]);
            proof {
                assert(batch@ =~= seq![self.listing()[0]]);
            }
        } else {
            let remaining = self.page_count - self.completed;
            let len: u16 = if self.batch_size <= remaining {
                self.batch_size
            } else {
                remaining
            };
            let mut k: usize = 0;
            while k < len as usize
                invariant
                    self.wf(),
                    self.stage() is Fetching,
                    self.cover_done(),
                    len == self.next_batch_len(),
                    self.completed() + len <= self.total(),
                    k <= len,
                    batch@ == self.listing().subrange(
                        self.completed() + 1,
                        self.completed() + 1 + k,
                    ),
                decreases len as int - k,
            {
                let idx: usize = self.completed as usize + 1 + k;
                batch.push(self.pages[idx]);
                proof {
                    assert(batch@ =~= self.listing().subrange(
                        self.completed() + 1,
                        self.completed() + 1 + k + 1,
                    ));
                }
                k = k + 1;
            }
        }
        batch
    }

    /// Takes the cover's bytes in and assembles them: the cover image
    /// becomes the cover resource and content entry 0, before any other
    /// entry. The cover's paths are still free at this point, so this
    /// always succeeds.
    pub fn on_cover(&mut self, bytes: &[u8]) -> (r: Result<(), PipelineError>)
        requires
            old(self).wf(),
            old(self).stage() is Fetching,
            !old(self).cover_done(),
            bytes@.len() <= MAX_IMAGE_BYTES,
        ensures
            r is Ok,
            final(self).wf(),
            final(self).stage() is Fetching,
            final(self).cover_done(),
            final(self).entries() == seq![0usize],
            final(self).resources() == old(self).resources().insert((spec_image_path(0), true)),
            final(self).spec_volume_id() == old(self).spec_volume_id(),
            final(self).total() == old(self).total(),
            final(self).batch_limit() == old(self).batch_limit(),
            final(self).completed() == old(self).completed(),
            final(self).listing() == old(self).listing(),
            final(self).metadata() == old(self).metadata(),
    {
        proof {
            assert(!self.archive.used_paths().contains(spec_image_path(0)));
        }
        match self.archive.add_cover_image(bytes) {
            Ok(()) => {},
            Err(_) => {
                self.stage = PipelineStage::Failed;
                return Err(PipelineError::Assembly);
            },
        }
        proof {
            assert(!self.archive.used_paths().contains(spec_xhtml_path(0))) by {
                if self.archive.used_paths().contains(spec_xhtml_path(0)) {
                    lemma_image_xhtml_distinct(0, 0);
                }
            }
        }
        match self.archive.add_content_entry(0) {
            Ok(()) => {},
            Err(_) => {
                self.stage = PipelineStage::Failed;
                return Err(PipelineError::Assembly);
            },
        }
        self.cover_done = true;
        proof {
            assert(self.entries() =~= seq![0usize]);
            assert(self.entries() =~= spec_entry_range(self.completed + 1));
            assert(self.archive.used_paths() =~= spec_used_upto(self.completed as int)) by {
                assert(spec_used_upto(self.completed as int).contains(spec_image_path(0)));
                assert(spec_used_upto(self.completed as int).contains(spec_xhtml_path(0)));
                assert forall|p: Seq<char>| spec_used_upto(0).contains(p) implies p
                    == spec_image_path(0) || p == spec_xhtml_path(0) by {
                    let k = choose|k: int|
                        0 <= k <= 0 && (p == spec_image_path(k) || p == spec_xhtml_path(k));
                }
            }
        }
        Ok(())
    }

    /// Takes one content batch's fetch outcomes in, in whatever order the
    /// fetches completed, and assembles them: every resource is stored in
    /// arrival order, then the content entries are registered in ascending
    /// page order, so the reading order is ascending for any completion
    /// order. It succeeds exactly when every page's bytes arrived; one
    /// missing page fails the whole volume with a fetch error and nothing is
    /// assembled. On success it hands back the progress report to emit:
    /// `(volume id, percent of content pages done)`.
    pub fn on_batch(&mut self, results: Vec<FetchedPage>) -> (r: Result<
        (u16, u8),
        PipelineError,
    >)
        requires
            old(self).wf(),
            old(self).stage() is Fetching,
            old(self).cover_done(),
            old(self).completed() < old(self).total(),
            results@.len() == old(self).next_batch_len(),
            results@.map_values(|f: FetchedPage| f.index).to_multiset()
                == old(self).next_batch_indices().to_multiset(),
            forall|i: int|
                0 <= i < results@.len() ==> ((#[trigger] results@[i].bytes) matches Some(b)
                    ==> b@.len() <= MAX_IMAGE_BYTES),
        ensures
            final(self).wf(),
            (r is Ok <==> (forall|i: int|
                0 <= i < results@.len() ==> (#[trigger] results@[i].bytes) is Some)),
            r is Ok ==> {
                &&& final(self).stage() is Fetching
                &&& final(self).cover_done()
                &&& final(self).completed() == old(self).completed() + results@.len()
                &&& final(self).entries() == spec_entry_range(final(self).completed() + 1)
                &&& final(self).resources() == old(self).resources().add(
                    results@.map_values(|f: FetchedPage| spec_image_path_pair(f.index)).to_multiset(),
                )
                &&& r == Ok::<(u16, u8), PipelineError>(
                    (
                        old(self).spec_volume_id(),
                        spec_percent(
                            old(self).completed() + results@.len(),
                            old(self).total() as int,
                        ) as u8,
                    ),
                )
            },
            r is Err ==> r == Err::<(u16, u8), PipelineError>(PipelineError::Fetch),
            r is Err ==> {
                &&& final(self).stage() is Failed
                &&& final(self).cover_done()
                &&& final(self).completed() == old(self).completed()
                &&& final(self).entries() == old(self).entries()
                &&& final(self).resources() == old(self).resources()
            },
            final(self).spec_volume_id() == old(self).spec_volume_id(),
            final(self).total() == old(self).total(),
            final(self).batch_limit() == old(self).batch_limit(),
            final(self).listing() == old(self).listing(),
            final(self).metadata() == old(self).metadata(),
            final(self).completed() >= old(self).completed(),
    {
        broadcast use vstd::seq_lib::group_to_multiset_ensures;

        let ghost batch = old(self).next_batch_indices();
        let len: usize = results.len();

        // A single missing page fails the whole volume: nothing is assembled.
        let mut i: usize = 0;
        while i < len
            invariant
                i <= len,
                len == results@.len(),
                forall|j: int| 0 <= j < i ==> (#[trigger] results@[j].bytes) is Some,
                old(self).wf(),
                old(self).stage() is Fetching,
                old(self).cover_done(),
                old(self).completed() < old(self).total(),
                self.volume_id == old(self).volume_id,
                self.page_count == old(self).page_count,
                self.batch_size == old(self).batch_size,
                self.stage == old(self).stage,
                self.cover_done == old(self).cover_done,
                self.completed == old(self).completed,
                self.pages == old(self).pages,
                self.archive == old(self).archive,
            decreases len - i,
        {
            if results[i].bytes.is_none() {
                self.stage = PipelineStage::Failed;
                return Err(PipelineError::Fetch);
            }
            i = i + 1;
        }

        // Store the image resources in completion order: any order is fine.
        let ghost mapped = results@.map_values(|f: FetchedPage| f.index);
        let mut i: usize = 0;
        proof {
            assert(batch.no_duplicates()) by {
                assert(forall|a: int, b: int|
                    0 <= a < batch.len() && 0 <= b < batch.len() && a != b ==> #[trigger] batch[a]
                        != #[trigger] batch[b]);
            }
            batch.lemma_multiset_has_no_duplicates();
            assert forall|x: usize| mapped.to_multiset().contains(x) implies mapped.to_multiset().count(
                x,
            ) == 1 by {
                assert(batch.to_multiset().contains(x));
            }
            mapped.lemma_multiset_has_no_duplicates_conv();
            assert forall|j: int| 0 <= j < mapped.len() implies old(self).completed() + 1
                <= #[trigger] mapped[j] <= old(self).completed() + len by {
                assert(mapped.contains(mapped[j]));
                assert(mapped.to_multiset().count(mapped[j]) > 0);
                assert(batch.to_multiset().count(mapped[j]) > 0);
                assert(batch.contains(mapped[j]));
                let k = choose|k: int| 0 <= k < batch.len() && batch[k] == mapped[j];
            }
            assert(mapped.subrange(0, 0) =~= Seq::<usize>::empty());
            assert(spec_image_paths_of(mapped.subrange(0, 0)) =~= Set::<Seq<char>>::empty());
            assert(self.archive.used_paths() =~= spec_used_upto(old(self).completed() as int).union(
                spec_image_paths_of(mapped.subrange(0, 0)),
            ));
            assert(results@.subrange(0, 0) =~= Seq::<FetchedPage>::empty());
            assert(results@.subrange(0, 0).map_values(
                |f: FetchedPage| spec_image_path_pair(f.index),
            ).to_multiset() =~= Multiset::<(Seq<char>, bool)>::empty());
            assert(old(self).resources().add(
                Multiset::<(Seq<char>, bool)>::empty(),
            ) =~= old(self).resources());
        }
        while i < len
            invariant
                i <= len,
                len == results@.len(),
                forall|j: int| 0 <= j < len ==> (#[trigger] results@[j].bytes) is Some,
                mapped == results@.map_values(|f: FetchedPage| f.index),
                mapped.to_multiset() == batch.to_multiset(),
                mapped.no_duplicates(),
                forall|j: int|
                    0 <= j < mapped.len() ==> old(self).completed() + 1 <= #[trigger] mapped[j]
                        <= old(self).completed() + len,
                forall|j: int|
                    0 <= j < results@.len() ==> ((#[trigger] results@[j].bytes) matches Some(b)
                        ==> b@.len() <= MAX_IMAGE_BYTES),
                batch == old(self).next_batch_indices(),
                forall|k: int|
                    0 <= k < batch.len() ==> #[trigger] batch[k] == old(self).completed() + 1 + k,
                batch.len() == len,
                self.archive.wf(),
                self.archive.content_entries() == old(self).entries(),
                self.archive.resources() == old(self).resources().add(
                    results@.subrange(0, i as int).map_values(
                        |f: FetchedPage| spec_image_path_pair(f.index),
                    ).to_multiset(),
                ),
                self.archive.used_paths() == spec_used_upto(old(self).completed() as int).union(
                    spec_image_paths_of(mapped.subrange(0, i as int)),
                ),
                self.archive.metadata() == old(self).metadata(),
                self.volume_id == old(self).volume_id,
                self.page_count == old(self).page_count,
                self.batch_size == old(self).batch_size,
                self.stage == old(self).stage,
                self.cover_done == old(self).cover_done,
                self.completed == old(self).completed,
                self.pages == old(self).pages,
                old(self).wf(),
                old(self).cover_done(),
                old(self).completed() < old(self).total(),
            decreases len - i,
        {
            let index = results[i].index;
            proof {
                broadcast use vstd::seq_lib::group_to_multiset_ensures;

                assert(mapped[i as int] == index);
                assert(index >= old(self).completed() + 1);
                assert(index <= old(self).completed() + len);
                let c = old(self).completed() as int;
                assert(!self.archive.used_paths().contains(spec_image_path(index as int))) by {
                    if spec_used_upto(c).contains(spec_image_path(index as int)) {
                        let k = choose|k: int|
                            0 <= k <= c && (spec_image_path(index as int) == spec_image_path(k)
                                || spec_image_path(index as int) == spec_xhtml_path(k));
                        if spec_image_path(index as int) == spec_image_path(k) {
                            lemma_image_path_injective(index as int, k);
                        } else {
                            lemma_image_xhtml_distinct(index as int, k);
                        }
                    }
                    if spec_image_paths_of(mapped.subrange(0, i as int)).contains(
                        spec_image_path(index as int),
                    ) {
                        let j = choose|j: int|
                            0 <= j < i && spec_image_path(index as int) == spec_image_path(
                                #[trigger] mapped.subrange(0, i as int)[j] as int,
                            );
                        lemma_image_path_injective(index as int, mapped[j] as int);
                        assert(mapped[j] == mapped[i as int]);
                    }
                }
            }
            let bytes = match &results[i].bytes {
                Some(b) => b,
                None => {
                    // Unreachable: every outcome was checked above.
                    self.stage = PipelineStage::Failed;
                    return Err(PipelineError::Fetch);
                },
            };
            match self.archive.add_resource(index, bytes.as_slice()) {
                Ok(()) => {},
                Err(_) => {
                    self.stage = PipelineStage::Failed;
                    return Err(PipelineError::Assembly);
                },
            }
            proof {
                let img = |f: FetchedPage| spec_image_path_pair(f.index);
                assert(results@.subrange(0, i + 1) =~= results@.subrange(0, i as int).push(
                    results@[i as int],
                ));
                assert(results@.subrange(0, i + 1).map_values(img) =~= results@.subrange(
                    0,
                    i as int,
                ).map_values(img).push(spec_image_path_pair(index)));
                assert(results@.subrange(0, i + 1).map_values(img).to_multiset()
                    =~= results@.subrange(0, i as int).map_values(img).to_multiset().insert(
                    spec_image_path_pair(index),
                ));
                assert(old(self).resources().add(
                    results@.subrange(0, i as int).map_values(img).to_multiset(),
                ).insert(spec_image_path_pair(index)) =~= old(self).resources().add(
                    results@.subrange(0, i + 1).map_values(img).to_multiset(),
                ));
                assert(mapped.subrange(0, i + 1) =~= mapped.subrange(0, i as int).push(
                    mapped[i as int],
                ));
                assert(spec_image_paths_of(mapped.subrange(0, i + 1)) =~= spec_image_paths_of(
                    mapped.subrange(0, i as int),
                ).insert(spec_image_path(index as int))) by {
                    assert forall|p: Seq<char>| #[trigger] spec_image_paths_of(
                        mapped.subrange(0, i + 1),
                    ).contains(p) implies spec_image_paths_of(
                        mapped.subrange(0, i as int),
                    ).insert(spec_image_path(index as int)).contains(p) by {
                        let j = choose|j: int|
                            0 <= j < i + 1 && p == spec_image_path(
                                #[trigger] mapped.subrange(0, i + 1)[j] as int,
                            );
                        if j < i {
                            assert(mapped.subrange(0, i as int)[j] == mapped.subrange(0, i + 1)[j]);
                        }
                    }
                    assert forall|p: Seq<char>| #[trigger] spec_image_paths_of(
                        mapped.subrange(0, i as int),
                    ).contains(p) implies spec_image_paths_of(
                        mapped.subrange(0, i + 1),
                    ).contains(p) by {
                        let j = choose|j: int|
                            0 <= j < i && p == spec_image_path(
                                #[trigger] mapped.subrange(0, i as int)[j] as int,
                            );
                        assert(mapped.subrange(0, i + 1)[j] == mapped.subrange(0, i as int)[j]);
                    }
                    assert(spec_image_paths_of(mapped.subrange(0, i + 1)).contains(
                        spec_image_path(mapped.subrange(0, i + 1)[i as int] as int),
                    ));
                }
                assert(self.archive.used_paths() =~= spec_used_upto(
                    old(self).completed() as int,
                ).union(spec_image_paths_of(mapped.subrange(0, i + 1))));
            }
            i = i + 1;
        }

        proof {
            let img = |f: FetchedPage| spec_image_path_pair(f.index);
            assert(results@.subrange(0, len as int) =~= results@);
            assert(mapped.subrange(0, len as int) =~= mapped);
            assert(self.archive.resources() == old(self).resources().add(
                results@.map_values(img).to_multiset(),
            ));
            assert(spec_xhtml_paths_between(old(self).completed() + 1, old(self).completed() as int)
                =~= Set::<Seq<char>>::empty());
            assert(self.archive.used_paths() =~= spec_used_upto(old(self).completed() as int).union(
                spec_image_paths_of(mapped),
            ).union(
                spec_xhtml_paths_between(
                    old(self).completed() + 1,
                    old(self).completed() as int,
                ),
            ));
        }

        // Register the markup entries in ascending page order, regardless of
        // the completion order above.
        let ghost resources_done = self.archive.resources();
        let base: usize = self.completed as usize;
        let mut k: usize = 0;
        while k < len
            invariant
                k <= len,
                len == results@.len(),
                forall|j: int| 0 <= j < len ==> (#[trigger] results@[j].bytes) is Some,
                base == old(self).completed(),
                base + len <= old(self).total(),
                mapped == results@.map_values(|f: FetchedPage| f.index),
                mapped.to_multiset() == batch.to_multiset(),
                batch == old(self).next_batch_indices(),
                forall|kk: int|
                    0 <= kk < batch.len() ==> #[trigger] batch[kk] == old(self).completed() + 1
                        + kk,
                batch.len() == len,
                forall|j: int|
                    0 <= j < mapped.len() ==> base + 1 <= #[trigger] mapped[j] <= base + len,
                self.archive.wf(),
                self.archive.content_entries() == spec_entry_range(base + k + 1),
                self.archive.resources() == resources_done,
                self.archive.used_paths() == spec_used_upto(base as int).union(
                    spec_image_paths_of(mapped),
                ).union(spec_xhtml_paths_between(base + 1, base + k)),
                self.archive.metadata() == old(self).metadata(),
                self.volume_id == old(self).volume_id,
                self.page_count == old(self).page_count,
                self.batch_size == old(self).batch_size,
                self.stage == old(self).stage,
                self.cover_done == old(self).cover_done,
                self.completed == old(self).completed,
                self.pages == old(self).pages,
                old(self).wf(),
                old(self).stage() is Fetching,
                old(self).cover_done(),
            decreases len - k,
        {
            let index: usize = base + 1 + k;
            proof {
                assert(self.archive.content_entries().last() == base + k);
                assert(!self.archive.used_paths().contains(spec_xhtml_path(index as int))) by {
                    if spec_used_upto(base as int).contains(spec_xhtml_path(index as int)) {
                        let m = choose|m: int|
                            0 <= m <= base && (spec_xhtml_path(index as int) == spec_image_path(m)
                                || spec_xhtml_path(index as int) == spec_xhtml_path(m));
                        if spec_xhtml_path(index as int) == spec_image_path(m) {
                            lemma_image_xhtml_distinct(m, index as int);
                        } else {
                            lemma_xhtml_path_injective(index as int, m);
                        }
                    }
                    if spec_image_paths_of(mapped).contains(spec_xhtml_path(index as int)) {
                        let j = choose|j: int|
                            0 <= j < mapped.len() && spec_xhtml_path(index as int)
                                == spec_image_path(#[trigger] mapped[j] as int);
                        lemma_image_xhtml_distinct(mapped[j] as int, index as int);
                    }
                    if spec_xhtml_paths_between(base + 1, base + k).contains(
                        spec_xhtml_path(index as int),
                    ) {
                        let m = choose|m: int|
                            base + 1 <= m <= base + k && spec_xhtml_path(index as int)
                                == spec_xhtml_path(m);
                        lemma_xhtml_path_injective(index as int, m);
                    }
                }
            }
            match self.archive.add_content_entry(index) {
                Ok(()) => {},
                Err(_) => {
                    self.stage = PipelineStage::Failed;
                    self.completed = (base + k) as u16;
                    proof {
                        assert(self.entries() =~= spec_entry_range(self.completed + 1));
                    }
                    return Err(PipelineError::Assembly);
                },
            }
            proof {
                assert(self.archive.content_entries() =~= spec_entry_range(base + k + 2));
                assert(spec_xhtml_paths_between(base + 1, base + k + 1)
                    =~= spec_xhtml_paths_between(base + 1, base + k).insert(
                    spec_xhtml_path(index as int),
                )) by {
                    assert forall|p: Seq<char>| #[trigger] spec_xhtml_paths_between(
                        base + 1,
                        base + k + 1,
                    ).contains(p) implies spec_xhtml_paths_between(
                        base + 1,
                        base + k,
                    ).insert(spec_xhtml_path(index as int)).contains(p) by {
                        let m = choose|m: int|
                            base + 1 <= m <= base + k + 1 && p == spec_xhtml_path(m);
                    }
                    assert(spec_xhtml_paths_between(base + 1, base + k + 1).contains(
                        spec_xhtml_path(index as int),
                    ));
                }
                assert(self.archive.used_paths() =~= spec_used_upto(base as int).union(
                    spec_image_paths_of(mapped),
                ).union(spec_xhtml_paths_between(base + 1, base + k + 1)));
            }
            k = k + 1;
        }

        self.completed = (base + len) as u16;
        let report = percent(self.completed, self.page_count);
        proof {
            broadcast use vstd::seq_lib::group_to_multiset_ensures;

            assert(self.entries() =~= spec_entry_range(self.completed + 1));
            let c = base as int;
            let u = spec_used_upto(c).union(spec_image_paths_of(mapped)).union(
                spec_xhtml_paths_between(c + 1, c + len),
            );
            assert(self.archive.used_paths() == u);
            assert forall|p: Seq<char>| #[trigger] u.contains(p) implies spec_used_upto(
                c + len,
            ).contains(p) by {
                if spec_used_upto(c).contains(p) {
                    let m = choose|m: int|
                        0 <= m <= c && (p == spec_image_path(m) || p == spec_xhtml_path(m));
                    assert(0 <= m <= c + len && (p == spec_image_path(m) || p == spec_xhtml_path(
                        m,
                    )));
                } else if spec_image_paths_of(mapped).contains(p) {
                    let j = choose|j: int|
                        0 <= j < mapped.len() && p == spec_image_path(#[trigger] mapped[j] as int);
                    assert(0 <= mapped[j] <= c + len && p == spec_image_path(mapped[j] as int));
                } else {
                    let m = choose|m: int| c + 1 <= m <= c + len && p == spec_xhtml_path(m);
                    assert(0 <= m <= c + len && p == spec_xhtml_path(m));
                }
            }
            assert forall|p: Seq<char>| #[trigger] spec_used_upto(c + len).contains(
                p,
            ) implies u.contains(p) by {
                let m = choose|m: int|
                    0 <= m <= c + len && (p == spec_image_path(m) || p == spec_xhtml_path(m));
                if m <= c {
                    assert(spec_used_upto(c).contains(p));
                } else if p == spec_image_path(m) {
                    assert(batch[m - c - 1] == (m as usize));
                    assert(batch.contains(m as usize));
                    assert(batch.to_multiset().count(m as usize) > 0);
                    assert(mapped.to_multiset().count(m as usize) > 0);
                    assert(mapped.contains(m as usize));
                    let j = choose|j: int| 0 <= j < mapped.len() && mapped[j] == (m as usize);
                    assert(p == spec_image_path(#[trigger] mapped[j] as int));
                    assert(spec_image_paths_of(mapped).contains(p));
                } else {
                    assert(spec_xhtml_paths_between(c + 1, c + len).contains(p));
                }
            }
            assert(self.archive.used_paths() =~= spec_used_upto(self.completed as int));
        }
        Ok((self.volume_id, report))
    }

    /// Whether this pipeline has failed; a failed volume's archive is
    /// discarded and never written.
    pub fn is_failed(&self) -> (b: bool)
        ensures
            b <==> self.stage() is Failed,
    {
        match self.stage {
            PipelineStage::Failed => true,
            _ => false,
        }
    }

    /// Finalizes the archive once every page is assembled, consuming the
    /// pipeline: the finished archive's bytes are handed back for the caller
    /// to persist, and this always succeeds — no page's path collides with
    /// the scaffolding the serialization writes. At this point the reading
    /// order is exactly pages 0 through `page_count`, ascending.
    pub fn finish(self) -> (r: Result<Vec<u8>, PipelineError>)
        requires
            self.wf(),
            self.stage() is Fetching,
            self.cover_done(),
            self.completed() == self.total(),
        ensures
            r is Ok,
    {
        proof {
            lemma_reserved_free(self.completed as int);
        }
        match self.archive.generate() {
            Ok(bytes) => Ok(bytes),
            Err(_) => Err(PipelineError::Assembly),
        }
    }
}

} // verus!
