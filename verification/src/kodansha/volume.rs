use vstd::prelude::*;

use crate::digits::{spec_dec, usize_string};

verus! {

/// One downloadable book-length unit, as the listing endpoint returns it.
/// Immutable once fetched; identity is `id`.
#[derive(Debug, Clone)]
pub struct Volume {
    pub series_name: String,
    pub volume_name: String,
    pub volume_number: u8,
    pub page_count: u16,
    pub description: String,
    pub id: u16,
    pub series_id: u16,
}

/// A listing row: like a volume, but the name may be missing, which marks
/// the row as a chapter rather than a full volume.
pub struct VolumeListing {
    pub series_name: String,
    pub volume_name: Option<String>,
    pub volume_number: u8,
    pub page_count: u16,
    pub description: String,
    pub id: u16,
    pub series_id: u16,
}

/// A single chapter; the library keeps only whole volumes, so it carries
/// no data here.
#[derive(Default, Clone)]
pub struct Chapter;

/// Anything the listing can hold.
#[derive(Clone)]
pub enum LibraryItem {
    Chapter(Chapter),
    Volume(Volume),
}

/// The volumes a user owns.
#[derive(Default, Clone)]
pub struct Library {
    pub volumes: Vec<Volume>,
}

/// The volume a named listing row stands for.
pub open spec fn spec_named_volume(l: VolumeListing, name: String) -> Volume {
    Volume {
        series_name: l.series_name,
        volume_name: name,
        volume_number: l.volume_number,
        page_count: l.page_count,
        description: l.description,
        id: l.id,
        series_id: l.series_id,
    }
}

/// The rows of a listing that carry a volume name, in order: chapters are
/// filtered away.
pub open spec fn spec_filter_volumes(s: Seq<VolumeListing>) -> Seq<Volume>
    decreases s.len(),
{
    if s.len() == 0 {
        Seq::<Volume>::empty()
    } else {
        let rest = spec_filter_volumes(s.drop_first());
        match s[0].volume_name {
            Some(name) => seq![spec_named_volume(s[0], name)] + rest,
            None => rest,
        }
    }
}

impl Library {
    /// Builds the library from a raw listing, keeping exactly the rows that
    /// name a volume and dropping the chapters.
    pub fn from_listing(listing: Vec<VolumeListing>) -> (lib: Library)
        ensures
            lib.volumes@ == spec_filter_volumes(listing@),
    {
        let ghost orig = listing@;
        let mut listing = listing;
        let mut volumes: Vec<Volume> = Vec::new();
        proof {
            assert(volumes@ + spec_filter_volumes(listing@) =~= spec_filter_volumes(orig));
        }
        while listing.len() > 0
            invariant
                volumes@ + spec_filter_volumes(listing@) == spec_filter_volumes(orig),
            decreases listing.len(),
        {
            let ghost before = listing@;
            let row = listing.remove(0);
            proof {
                assert(listing@ =~= before.drop_first());
            }
            match row.volume_name {
                Some(name) => {
                    let volume = Volume {
                        series_name: row.series_name,
                        volume_name: name,
                        volume_number: row.volume_number,
                        page_count: row.page_count,
                        description: row.description,
                        id: row.id,
                        series_id: row.series_id,
                    };
                    proof {
                        assert(volume == spec_named_volume(
                            before[0],
                            before[0].volume_name->0,
                        ));
                    }
                    volumes.push(volume);
                    proof {
                        assert(volumes@ + spec_filter_volumes(listing@) =~= spec_filter_volumes(
                            orig,
                        ));
                    }
                },
                None => {
                    proof {
                        assert(volumes@ + spec_filter_volumes(listing@) =~= spec_filter_volumes(
                            orig,
                        ));
                    }
                },
            }
        }
        proof {
            assert(spec_filter_volumes(listing@) =~= Seq::<Volume>::empty());
            assert(volumes@ =~= spec_filter_volumes(orig));
        }
        Library { volumes }
    }
}

/// The route a single volume's record is fetched from.
pub open spec fn spec_volume_route(id: int) -> Seq<char> {
    "https://api.kodansha.us/comic/"@ + spec_dec(id) + "/"@
}

/// The route a volume's page list is fetched from.
pub open spec fn spec_pages_route(id: int) -> Seq<char> {
    "https://api.kodansha.us/comic/"@ + spec_dec(id) + "/pages"@
}

/// Renders the route of one volume's record.
pub fn volume_route(id: u16) -> (s: String)
    ensures
        s@ == spec_volume_route(id as int),
{
    let s = "https://api.kodansha.us/comic/".to_owned().concat(
        usize_string(id as usize).as_str(),
    ).concat("/");
    proof {
        assert(s@ =~= spec_volume_route(id as int));
    }
    s
}

/// Renders the route of one volume's page list.
pub fn pages_route(id: u16) -> (s: String)
    ensures
        s@ == spec_pages_route(id as int),
{
    let s = "https://api.kodansha.us/comic/".to_owned().concat(
        usize_string(id as usize).as_str(),
    ).concat("/pages");
    proof {
        assert(s@ =~= spec_pages_route(id as int));
    }
    s
}

} // verus!
