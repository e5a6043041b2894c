use vstd::prelude::*;

use vstd::multiset::Multiset;

use crate::kodansha::page::{
    image_path, lemma_image_path_wf, lemma_image_xhtml_distinct, lemma_xhtml_path_wf, page_title,
    spec_image_path, spec_image_template, spec_page_title, spec_xhtml_path, xhtml_path, Page,
};
use crate::text::{normalize_description, spec_normalize_description};

use epub_builder::Error as EpubBuilderError;
use epub_builder::EpubBuilder;
use epub_builder::ZipLibrary;

verus! {

#[verifier::external_type_specification]
#[verifier::external_body]
pub struct ExEpubError(epub_builder::Error);

/// Holds the archive builder of the outside crate. The builder's generic
/// bound is a private trait of that crate, so the builder cannot be declared
/// to the verifier directly; it is carried opaquely in this one field and
/// reached only through the trusted functions below.
#[verifier::external_body]
pub struct EpubHandle {
    inner: EpubBuilder<ZipLibrary>,
}

/// The markup pages handed to the builder, in registration order — the
/// reading order of the finished archive. Each entry carries the page's
/// archive path, the markup text written under it, the title shown in the
/// table of contents, and whether it was registered as the cover entry.
pub uninterp spec fn epub_spine(b: EpubHandle) -> Seq<(Seq<char>, Seq<char>, Seq<char>, bool)>;

/// The archive paths of the binary resources handed to the builder, each
/// paired with whether it was registered as the cover image.
pub uninterp spec fn epub_resources(b: EpubHandle) -> Multiset<(Seq<char>, bool)>;

/// The metadata recorded through the builder: each key maps to the value most
/// recently set for it.
pub uninterp spec fn epub_meta(b: EpubHandle) -> Map<Seq<char>, Seq<char>>;

/// The archive paths already written beneath the book root: every resource
/// and every markup page. The builder's zip sink rejects a second write to
/// the same path, so these decide whether the next write is accepted.
pub open spec fn epub_used_paths(b: EpubHandle) -> Set<Seq<char>> {
    Set::new(
        |p: Seq<char>|
            epub_resources(b).count((p, true)) > 0 || epub_resources(b).count((p, false)) > 0
                || exists|i: int| 0 <= i < epub_spine(b).len() && (#[trigger] epub_spine(b)[i]).0 == p,
    )
}

/// The most bytes one page image (or markup page) may hold: comfortably
/// under the archive format's plain four-gigabyte per-member limit, so a
/// write within it cannot fail for size.
pub const MAX_IMAGE_BYTES: usize = 0x4000_0000;

/// A path the builder's sink takes without question: non-empty, relative,
/// free of backslashes, and far below the format's name-length limit.
pub open spec fn spec_sink_path_ok(path: Seq<char>) -> bool {
    &&& 0 < path.len() <= 16000
    &&& path[0] != '/'
    &&& forall|i: int| 0 <= i < path.len() ==> path[i] != '\\'
}

/// Relies on ZipLibrary::new and EpubBuilder::new for a fresh builder with no
/// content, and on EpubBuilder::epub_version to select version 3.0. The
/// construction only writes the fixed scaffolding files into the in-memory
/// sink, so it succeeds.
#[verifier::external_body]
fn epub_new() -> (r: Result<EpubHandle, EpubBuilderError>)
    ensures
        r is Ok,
        (r matches Ok(b) ==> epub_spine(b) == Seq::<(Seq<char>, Seq<char>, Seq<char>, bool)>::empty()),
        (r matches Ok(b) ==> epub_resources(b) == Multiset::<(Seq<char>, bool)>::empty()),
        (r matches Ok(b) ==> epub_meta(b) == Map::<Seq<char>, Seq<char>>::empty()),
{
    let zip = epub_builder::ZipLibrary::new()?;
    let mut builder = epub_builder::EpubBuilder::new(zip)?;
    builder.epub_version(epub_builder::EpubVersion::V30);
    Ok(EpubHandle { inner: builder })
}

/// Relies on EpubBuilder::metadata: for the keys "title", "description" and
/// "subject" it records the value and returns Ok, touching no content.
#[verifier::external_body]
fn epub_set_meta(b: &mut EpubHandle, key: &str, value: &str) -> (r: Result<(), EpubBuilderError>)
    requires
        key@ == "title"@ || key@ == "description"@ || key@ == "subject"@,
    ensures
        r is Ok,
        epub_meta(*final(b)) == epub_meta(*old(b)).insert(key@, value@),
        epub_spine(*final(b)) == epub_spine(*old(b)),
        epub_resources(*final(b)) == epub_resources(*old(b)),
{
    b.inner.metadata(key, value).map(|_| ())
}

/// Relies on EpubBuilder::add_cover_image: the bytes are stored under `path`
/// and flagged as the cover; the reading order is untouched. The in-memory
/// sink accepts any bounded write to a fresh path and rejects exactly a
/// duplicate one.
#[verifier::external_body]
fn epub_add_cover(b: &mut EpubHandle, path: &str, bytes: &[u8]) -> (r: Result<(), EpubBuilderError>)
    requires
        spec_sink_path_ok(path@),
        bytes@.len() <= MAX_IMAGE_BYTES,
    ensures
        r is Ok <==> !epub_used_paths(*old(b)).contains(path@),
        r is Ok ==> epub_resources(*final(b)) == epub_resources(*old(b)).insert((path@, true)),
        r is Err ==> epub_resources(*final(b)) == epub_resources(*old(b)),
        epub_spine(*final(b)) == epub_spine(*old(b)),
        epub_meta(*final(b)) == epub_meta(*old(b)),
{
    b.inner.add_cover_image(path, bytes, "image/jpeg").map(|_| ())
}

/// Relies on EpubBuilder::add_resource: like the cover, but stored as an
/// ordinary resource.
#[verifier::external_body]
fn epub_add_resource(b: &mut EpubHandle, path: &str, bytes: &[u8]) -> (r: Result<(), EpubBuilderError>)
    requires
        spec_sink_path_ok(path@),
        bytes@.len() <= MAX_IMAGE_BYTES,
    ensures
        r is Ok <==> !epub_used_paths(*old(b)).contains(path@),
        r is Ok ==> epub_resources(*final(b)) == epub_resources(*old(b)).insert((path@, false)),
        r is Err ==> epub_resources(*final(b)) == epub_resources(*old(b)),
        epub_spine(*final(b)) == epub_spine(*old(b)),
        epub_meta(*final(b)) == epub_meta(*old(b)),
{
    b.inner.add_resource(path, bytes, "image/jpeg").map(|_| ())
}

/// Whether a content entry is the cover page or an ordinary text page.
pub enum EntryKind {
    Cover,
    Text,
}

/// Relies on EpubBuilder::add_content (with EpubContent::new, title and
/// reftype): the markup page is appended to the reading order with exactly
/// the path, markup, title and kind handed over; a duplicate path is the
/// one rejection.
#[verifier::external_body]
fn epub_add_content(b: &mut EpubHandle, path: &str, markup: &str, title: &str, kind: &EntryKind) -> (r: Result<(), EpubBuilderError>)
    requires
        spec_sink_path_ok(path@),
        markup@.len() <= 0x1000_0000,
    ensures
        r is Ok <==> !epub_used_paths(*old(b)).contains(path@),
        r is Ok ==> epub_spine(*final(b)) == epub_spine(*old(b)).push(
            (path@, markup@, title@, kind is Cover),
        ),
        r is Err ==> epub_spine(*final(b)) == epub_spine(*old(b)),
        epub_resources(*final(b)) == epub_resources(*old(b)),
        epub_meta(*final(b)) == epub_meta(*old(b)),
{
    let reftype = match kind {
        EntryKind::Cover => epub_builder::ReferenceType::Cover,
        EntryKind::Text => epub_builder::ReferenceType::Text,
    };
    let content = epub_builder::EpubContent::new(path, markup.as_bytes()).title(title).reftype(
        reftype,
    );
    b.inner.add_content(content).map(|_| ())
}

/// Relies on EpubBuilder::generate to serialize the archive into an
/// in-memory buffer that is handed back. Serialization renders fixed
/// templates and writes the four scaffolding files; it fails exactly when a
/// content write already took one of their paths.
#[verifier::external_body]
fn epub_generate(b: EpubHandle) -> (r: Result<Vec<u8>, EpubBuilderError>)
    ensures
        r is Ok <==> {
            &&& !epub_used_paths(b).contains("stylesheet.css"@)
            &&& !epub_used_paths(b).contains("content.opf"@)
            &&& !epub_used_paths(b).contains("toc.ncx"@)
            &&& !epub_used_paths(b).contains("nav.xhtml"@)
        },
{
    let mut out: Vec<u8> = Vec::new();
    match b.inner.generate(&mut out) {
        Ok(()) => Ok(out),
        Err(e) => Err(e),
    }
}

/// How a non-cover page's image figures in the stored resources: its
/// archive path, not flagged as the cover.
pub open spec fn spec_image_path_pair(page: usize) -> (Seq<char>, bool) {
    (spec_image_path(page as int), false)
}

/// What one page's content entry hands to the builder: its markup path, the
/// markup wrapping its image, its title, and whether it is the cover entry.
pub open spec fn spec_entry_record(page: usize) -> (Seq<char>, Seq<char>, Seq<char>, bool) {
    (
        spec_xhtml_path(page as int),
        spec_image_template(page as int, spec_image_path(page as int)),
        spec_page_title(page as int),
        page == 0,
    )
}

/// The builder rejected a mutation or the final serialization: under the
/// error taxonomy this is an assembly fault of the one volume being built.
#[derive(Clone, Copy, PartialEq, Eq, Structural, Debug)]
pub enum ArchiveError {
    Assembly,
}

/// The mathematical content of an archive under construction.
pub struct ArchiveModel {
    /// Page indices whose content entries are registered, in registration order.
    pub entries: Seq<usize>,
    /// Resource paths stored, each flagged if it is the cover image.
    pub resources: Multiset<(Seq<char>, bool)>,
    /// Metadata keys and the values recorded for them.
    pub metadata: Map<Seq<char>, Seq<char>>,
}

/// One archive per volume: accumulates image resources in any order, but
/// accepts the markup entries that reference them only in strictly ascending
/// page order, so the finished reading order is ascending no matter how the
/// fetches completed.
pub struct VolumeArchive {
    builder: EpubHandle,
    entries: Vec<usize>,
}

impl VolumeArchive {
    /// Page indices whose content entries are registered, in order.
    pub closed spec fn content_entries(&self) -> Seq<usize> {
        self.entries@
    }

    /// Resource paths stored so far.
    pub closed spec fn resources(&self) -> Multiset<(Seq<char>, bool)> {
        epub_resources(self.builder)
    }

    /// Metadata recorded at construction.
    pub closed spec fn metadata(&self) -> Map<Seq<char>, Seq<char>> {
        epub_meta(self.builder)
    }

    /// The archive paths written so far: the next write must avoid them.
    pub closed spec fn used_paths(&self) -> Set<Seq<char>> {
        epub_used_paths(self.builder)
    }

    /// The whole mathematical content.
    pub closed spec fn model(&self) -> ArchiveModel {
        ArchiveModel {
            entries: self.content_entries(),
            resources: self.resources(),
            metadata: self.metadata(),
        }
    }

    /// The builder's reading order mirrors the registered entries — each
    /// with its canonical path, markup, title and kind — and the registered
    /// entries are strictly ascending.
    pub closed spec fn wf(&self) -> bool {
        &&& epub_spine(self.builder) == self.entries@.map_values(|p: usize| spec_entry_record(p))
        &&& forall|i: int, j: int|
            0 <= i < j < self.entries@.len() ==> self.entries@[i] < self.entries@[j]
    }

    /// The metadata a fresh archive for the given volume fields carries:
    /// title and subject as given, the description normalized first.
    pub open spec fn spec_initial_metadata(title: Seq<char>, description: Seq<char>) -> Map<
        Seq<char>,
        Seq<char>,
    > {
        Map::<Seq<char>, Seq<char>>::empty().insert("title"@, title).insert(
            "description"@,
            spec_normalize_description(description),
        ).insert("subject"@, "Manga"@)
    }

    /// Opens a fresh archive — this always succeeds — and records its
    /// metadata exactly once, before any page is added: the title as given,
    /// the description with the `rsquo` artifact normalized, and the fixed
    /// subject "Manga".
    pub fn new(title: &str, description: &str) -> (r: Result<VolumeArchive, ArchiveError>)
        ensures
            r is Ok,
            r is Ok ==> (r->Ok_0).wf(),
            r is Ok ==> (r->Ok_0).content_entries() == Seq::<usize>::empty(),
            r is Ok ==> (r->Ok_0).resources() == Multiset::<(Seq<char>, bool)>::empty(),
            r is Ok ==> (r->Ok_0).used_paths() == Set::<Seq<char>>::empty(),
            r is Ok ==> (r->Ok_0).metadata() == Self::spec_initial_metadata(title@, description@),
    {
        let builder = match epub_new() {
            Ok(b) => b,
            Err(_) => {
                return Err(ArchiveError::Assembly);
            },
        };
        let mut archive = VolumeArchive { builder, entries: Vec::new() };
        let normalized = normalize_description(description);
        let _ = epub_set_meta(&mut archive.builder, "title", title);
        let _ = epub_set_meta(&mut archive.builder, "description", normalized.as_str());
        let _ = epub_set_meta(&mut archive.builder, "subject", "Manga");
        proof {
            assert(archive.entries@.map_values(|p: usize| spec_entry_record(p)) =~= Seq::<
                (Seq<char>, Seq<char>, Seq<char>, bool),
            >::empty());
            assert(epub_used_paths(archive.builder) =~= Set::<Seq<char>>::empty());
        }
        Ok(archive)
    }

    /// Registers page 0's bytes as the cover resource. This succeeds exactly
    /// when the cover's path is still free — in particular, the first time.
    pub fn add_cover_image(&mut self, bytes: &[u8]) -> (r: Result<(), ArchiveError>)
        requires
            old(self).wf(),
            bytes@.len() <= MAX_IMAGE_BYTES,
        ensures
            final(self).wf(),
            r is Ok <==> !old(self).used_paths().contains(spec_image_path(0)),
            r is Ok ==> final(self).resources() == old(self).resources().insert(
                (spec_image_path(0), true),
            ),
            r is Ok ==> final(self).used_paths() == old(self).used_paths().insert(
                spec_image_path(0),
            ),
            r is Ok ==> final(self).model() == apply_archive_op(old(self).model(), ArchiveOp::Cover),
            r is Err ==> final(self).resources() == old(self).resources() && final(self).used_paths() == old(self).used_paths(),
            final(self).content_entries() == old(self).content_entries(),
            final(self).metadata() == old(self).metadata(),
    {
        proof {
            lemma_image_path_wf(0);
        }
        let path = image_path(0);
        let ghost before = self.builder;
        match epub_add_cover(&mut self.builder, path.as_str(), bytes) {
            Ok(()) => {
                proof {
                    lemma_used_paths_after_resource(before, self.builder, path@, true);
                }
                Ok(())
            },
            Err(_) => Err(ArchiveError::Assembly),
        }
    }

    /// Registers a non-cover page's bytes under the stable name derived from
    /// its index. Resources may arrive in any order; registering an index a
    /// second time is the one rejection.
    pub fn add_resource(&mut self, page_index: usize, bytes: &[u8]) -> (r: Result<
        (),
        ArchiveError,
    >)
        requires
            old(self).wf(),
            1 <= page_index <= 0xFFFF,
            bytes@.len() <= MAX_IMAGE_BYTES,
        ensures
            final(self).wf(),
            r is Ok <==> !old(self).used_paths().contains(spec_image_path(page_index as int)),
            r is Ok ==> final(self).resources() == old(self).resources().insert(
                (spec_image_path(page_index as int), false),
            ),
            r is Ok ==> final(self).used_paths() == old(self).used_paths().insert(
                spec_image_path(page_index as int),
            ),
            r is Ok ==> final(self).model() == apply_archive_op(
                old(self).model(),
                ArchiveOp::Resource { page: page_index },
            ),
            r is Err ==> final(self).resources() == old(self).resources() && final(self).used_paths() == old(self).used_paths(),
            final(self).content_entries() == old(self).content_entries(),
            final(self).metadata() == old(self).metadata(),
    {
        proof {
            lemma_image_path_wf(page_index as int);
        }
        let path = image_path(page_index);
        let ghost before = self.builder;
        match epub_add_resource(&mut self.builder, path.as_str(), bytes) {
            Ok(()) => {
                proof {
                    lemma_used_paths_after_resource(before, self.builder, path@, false);
                }
                Ok(())
            },
            Err(_) => Err(ArchiveError::Assembly),
        }
    }

    /// Registers the markup page that references page `page_index`'s
    /// resource: its canonical path, markup, title and kind. Calls must come
    /// in strictly ascending page order across the life of the archive,
    /// whatever order the resources were added in; registering a page twice
    /// is the one rejection.
    pub fn add_content_entry(&mut self, page_index: usize) -> (r: Result<(), ArchiveError>)
        requires
            old(self).wf(),
            page_index <= 0xFFFF,
            old(self).content_entries().len() == 0 || old(self).content_entries().last()
                < page_index,
        ensures
            final(self).wf(),
            r is Ok <==> !old(self).used_paths().contains(spec_xhtml_path(page_index as int)),
            r is Ok ==> final(self).content_entries() == old(self).content_entries().push(
                page_index,
            ),
            r is Ok ==> final(self).used_paths() == old(self).used_paths().insert(
                spec_xhtml_path(page_index as int),
            ),
            r is Ok ==> final(self).model() == apply_archive_op(
                old(self).model(),
                ArchiveOp::Entry { page: page_index },
            ),
            r is Err ==> final(self).content_entries() == old(self).content_entries() && final(self).used_paths() == old(self).used_paths(),
            final(self).resources() == old(self).resources(),
            final(self).metadata() == old(self).metadata(),
    {
        proof {
            lemma_xhtml_path_wf(page_index as int);
            lemma_image_path_wf(page_index as int);
            lemma_template_len(page_index as int);
        }
        let path = xhtml_path(page_index);
        let markup = Page::image_template(page_index, image_path(page_index));
        let title = page_title(page_index);
        let kind = if page_index == 0 {
            EntryKind::Cover
        } else {
            EntryKind::Text
        };
        let ghost before = self.builder;
        match epub_add_content(
            &mut self.builder,
            path.as_str(),
            markup.as_str(),
            title.as_str(),
            &kind,
        ) {
            Ok(()) => {
                self.entries.push(page_index);
                proof {
                    assert(self.entries@.map_values(|p: usize| spec_entry_record(p)) =~= old(self).entries@.map_values(|p: usize| spec_entry_record(p)).push(
                        spec_entry_record(page_index),
                    ));
                    lemma_used_paths_after_entry(
                        before,
                        self.builder,
                        spec_entry_record(page_index),
                    );
                }
                Ok(())
            },
            Err(_) => Err(ArchiveError::Assembly),
        }
    }

    /// Finalizes and serializes the archive exactly once, consuming it. This
    /// succeeds exactly when no content write took one of the scaffolding
    /// paths — which no page's canonical path ever does.
    pub fn generate(self) -> (r: Result<Vec<u8>, ArchiveError>)
        ensures
            r is Ok <==> {
                &&& !self.used_paths().contains("stylesheet.css"@)
                &&& !self.used_paths().contains("content.opf"@)
                &&& !self.used_paths().contains("toc.ncx"@)
                &&& !self.used_paths().contains("nav.xhtml"@)
            },
    {
        match epub_generate(self.builder) {
            Ok(bytes) => Ok(bytes),
            Err(_) => Err(ArchiveError::Assembly),
        }
    }
}

/// After one resource write, the used paths grew by exactly that path.
proof fn lemma_used_paths_after_resource(
    before: EpubHandle,
    after: EpubHandle,
    path: Seq<char>,
    cover: bool,
)
    requires
        epub_resources(after) == epub_resources(before).insert((path, cover)),
        epub_spine(after) == epub_spine(before),
    ensures
        epub_used_paths(after) == epub_used_paths(before).insert(path),
{
    assert forall|q: Seq<char>| #[trigger]
        epub_used_paths(after).contains(q) == epub_used_paths(before).insert(path).contains(
        q,
    ) by {
        if q != path {
            assert(epub_resources(after).count((q, true)) == epub_resources(before).count(
                (q, true),
            ));
            assert(epub_resources(after).count((q, false)) == epub_resources(before).count(
                (q, false),
            ));
        } else {
            assert(epub_resources(after).count((path, cover)) > 0);
        }
    }
    assert(epub_used_paths(after) =~= epub_used_paths(before).insert(path));
}

/// After one markup write, the used paths grew by exactly that page's path.
proof fn lemma_used_paths_after_entry(
    before: EpubHandle,
    after: EpubHandle,
    rec: (Seq<char>, Seq<char>, Seq<char>, bool),
)
    requires
        epub_resources(after) == epub_resources(before),
        epub_spine(after) == epub_spine(before).push(rec),
    ensures
        epub_used_paths(after) == epub_used_paths(before).insert(rec.0),
{
    let path = rec.0;
    assert forall|q: Seq<char>| #[trigger]
        epub_used_paths(after).contains(q) == epub_used_paths(before).insert(path).contains(
        q,
    ) by {
        let n = epub_spine(before).len() as int;
        if epub_used_paths(after).contains(q) {
            if exists|i: int| 0 <= i < epub_spine(after).len() && (#[trigger] epub_spine(after)[i]).0
                == q {
                let i = choose|i: int|
                    0 <= i < epub_spine(after).len() && (#[trigger] epub_spine(after)[i]).0 == q;
                if i < n {
                    assert((epub_spine(before)[i]).0 == q);
                } else {
                    assert(q == path);
                }
            }
        }
        if epub_used_paths(before).contains(q) {
            if exists|i: int| 0 <= i < epub_spine(before).len() && (#[trigger] epub_spine(
                before,
            )[i]).0 == q {
                let i = choose|i: int|
                    0 <= i < epub_spine(before).len() && (#[trigger] epub_spine(before)[i]).0 == q;
                assert((epub_spine(after)[i]).0 == q);
            }
        }
        if q == path {
            assert((epub_spine(after)[n]).0 == q);
        }
    }
    assert(epub_used_paths(after) =~= epub_used_paths(before).insert(path));
}

/// A page's markup stays far below the sink's size limit.
proof fn lemma_template_len(k: int)
    requires
        0 <= k <= 0xFFFF,
    ensures
        spec_image_template(k, spec_image_path(k)).len() <= 0x1000_0000,
{
    reveal_strlit("<?xml version='1.0' encoding='utf-8'?>\n<html xmlns=\"http://www.w3.org/1999/xhtml\">\n  <head>\n    <title>Page #");
    reveal_strlit("</title>\n    <meta http-equiv=\"Content-Type\" content=\"text/html; charset=utf-8\"/>\n  </head>\n  <body>\n    <img src=\"");
    reveal_strlit("\" alt=\"comic page #");
    reveal_strlit("\" />\n  </body>\n</html>");
    lemma_image_path_wf(k);
    assert(crate::digits::pow10(5) == 100000) by {
        reveal_with_fuel(crate::digits::pow10, 6);
    }
    crate::digits::lemma_dec_len_bound(k, 5);
}

/// One mutation of an archive under construction, as its model sees it:
/// every method of VolumeArchive that touches content performs exactly one
/// of these.
pub enum ArchiveOp {
    /// The cover image is stored.
    Cover,
    /// A content page's image is stored.
    Resource { page: usize },
    /// A content page's markup entry is registered.
    Entry { page: usize },
}

/// The effect of one mutation on an archive's content. No operation touches
/// the metadata: it is fixed when the archive is opened.
pub open spec fn apply_archive_op(m: ArchiveModel, op: ArchiveOp) -> ArchiveModel {
    match op {
        ArchiveOp::Cover => ArchiveModel {
            resources: m.resources.insert((spec_image_path(0), true)),
            entries: m.entries,
            metadata: m.metadata,
        },
        ArchiveOp::Resource { page } => ArchiveModel {
            resources: m.resources.insert(spec_image_path_pair(page)),
            entries: m.entries,
            metadata: m.metadata,
        },
        ArchiveOp::Entry { page } => ArchiveModel {
            entries: m.entries.push(page),
            resources: m.resources,
            metadata: m.metadata,
        },
    }
}

/// The effect of a whole run of mutations, first to last.
pub open spec fn apply_archive_ops(m: ArchiveModel, ops: Seq<ArchiveOp>) -> ArchiveModel
    decreases ops.len(),
{
    if ops.len() == 0 {
        m
    } else {
        apply_archive_ops(apply_archive_op(m, ops[0]), ops.drop_first())
    }
}

/// Metadata is written exactly once, when the archive is opened: no run of
/// content mutations, however long, changes it.
pub proof fn lemma_metadata_set_once(m: ArchiveModel, ops: Seq<ArchiveOp>)
    ensures
        apply_archive_ops(m, ops).metadata == m.metadata,
    decreases ops.len(),
{
    if ops.len() > 0 {
        lemma_metadata_set_once(apply_archive_op(m, ops[0]), ops.drop_first());
    }
}

/// An interleaved run over two archives: each step goes to the first or to
/// the second, the way two volumes downloading concurrently interleave
/// their archive mutations in time.
pub open spec fn apply_interleaved(
    a: ArchiveModel,
    b: ArchiveModel,
    ops: Seq<(bool, ArchiveOp)>,
) -> (ArchiveModel, ArchiveModel)
    decreases ops.len(),
{
    if ops.len() == 0 {
        (a, b)
    } else if ops[0].0 {
        apply_interleaved(apply_archive_op(a, ops[0].1), b, ops.drop_first())
    } else {
        apply_interleaved(a, apply_archive_op(b, ops[0].1), ops.drop_first())
    }
}

/// The steps of an interleaved run that belong to one side, in order.
pub open spec fn own_ops(ops: Seq<(bool, ArchiveOp)>, first: bool) -> Seq<ArchiveOp>
    decreases ops.len(),
{
    if ops.len() == 0 {
        Seq::<ArchiveOp>::empty()
    } else if ops[0].0 == first {
        seq![ops[0].1] + own_ops(ops.drop_first(), first)
    } else {
        own_ops(ops.drop_first(), first)
    }
}

/// Isolation: two volumes downloading concurrently never mix their
/// archives' contents. However their mutations interleave in time, each
/// archive ends exactly as if its own mutations had run alone.
pub proof fn lemma_volume_isolation(
    a: ArchiveModel,
    b: ArchiveModel,
    ops: Seq<(bool, ArchiveOp)>,
)
    ensures
        apply_interleaved(a, b, ops).0 == apply_archive_ops(a, own_ops(ops, true)),
        apply_interleaved(a, b, ops).1 == apply_archive_ops(b, own_ops(ops, false)),
    decreases ops.len(),
{
    if ops.len() > 0 {
        if ops[0].0 {
            lemma_volume_isolation(apply_archive_op(a, ops[0].1), b, ops.drop_first());
            assert(own_ops(ops, true)[0] == ops[0].1);
            assert(own_ops(ops, true).drop_first() =~= own_ops(ops.drop_first(), true));
        } else {
            lemma_volume_isolation(a, apply_archive_op(b, ops[0].1), ops.drop_first());
            assert(own_ops(ops, false)[0] == ops[0].1);
            assert(own_ops(ops, false).drop_first() =~= own_ops(ops.drop_first(), false));
        }
    }
}

/// Content entries accepted by a well-formed archive stand in strictly
/// ascending page order, whatever order its resources arrived in.
pub proof fn lemma_content_entries_ascending(a: &VolumeArchive)
    requires
        a.wf(),
    ensures
        forall|i: int, j: int|
            0 <= i < j < a.content_entries().len() ==> a.content_entries()[i]
                < a.content_entries()[j],
{
}

} // verus!
