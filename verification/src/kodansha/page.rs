use vstd::prelude::*;

use crate::digits::{spec_dec, usize_string};

verus! {

/// One fetchable page of a volume: the URL its image lives at.
#[derive(Clone)]
pub struct Page {
    pub url: String,
}

/// A page as the listing endpoint describes it: a 1-based page number and
/// the id of the comic it belongs to.
#[derive(Clone, Copy, PartialEq, Eq, Structural, Debug)]
pub struct RemotePage {
    pub page_number: usize,
    pub comic_id: usize,
}

impl RemotePage {
    /// The 0-based page index used everywhere downstream: index 0 is the cover.
    pub fn page_index(&self) -> (i: usize)
        requires
            self.page_number >= 1,
        ensures
            i == self.page_number - 1,
    {
        self.page_number - 1
    }
}

/// The route one page's record is fetched from.
pub open spec fn spec_page_route(comic_id: int, page_index: int) -> Seq<char> {
    "https://api.kodansha.us/comic/"@ + spec_dec(comic_id) + "/pages/"@ + spec_dec(page_index)
}

/// Renders the route of one page's record.
pub fn page_route(comic_id: usize, page_index: usize) -> (s: String)
    ensures
        s@ == spec_page_route(comic_id as int, page_index as int),
{
    let s = "https://api.kodansha.us/comic/".to_owned().concat(
        usize_string(comic_id).as_str(),
    ).concat("/pages/").concat(usize_string(page_index).as_str());
    proof {
        assert(s@ =~= spec_page_route(comic_id as int, page_index as int));
    }
    s
}

/// Name of the image resource inside the archive: the cover is special-cased.
pub open spec fn spec_image_file(page: int) -> Seq<char> {
    if page == 0 {
        "cover.jpeg"@
    } else {
        "page-"@ + spec_dec(page) + ".jpeg"@
    }
}

/// Path of the image resource inside the archive.
pub open spec fn spec_image_path(page: int) -> Seq<char> {
    "images/"@ + spec_image_file(page)
}

/// Path of the markup page that references the image of page `page`.
pub open spec fn spec_xhtml_path(page: int) -> Seq<char> {
    "page-"@ + spec_dec(page) + ".xhtml"@
}

/// An image path is short, starts with `i`, and holds no backslash: the
/// shape the archive sink accepts unconditionally, duplicates aside.
pub proof fn lemma_image_path_wf(k: int)
    requires
        0 <= k <= 0xFFFF,
    ensures
        0 < spec_image_path(k).len() <= 30,
        spec_image_path(k)[0] == 'i',
        forall|i: int| 0 <= i < spec_image_path(k).len() ==> #[trigger] spec_image_path(k)[i] != '\\',
{
    reveal_strlit("images/");
    reveal_strlit("cover.jpeg");
    reveal_strlit("page-");
    reveal_strlit(".jpeg");
    assert(crate::digits::pow10(5) == 100000) by {
        reveal_with_fuel(crate::digits::pow10, 6);
    }
    crate::digits::lemma_dec_len_bound(k, 5);
    crate::digits::lemma_dec_len_pos(k);
    crate::digits::lemma_dec_digits(k);
}

/// A markup path is short, starts with `p`, and holds no backslash.
pub proof fn lemma_xhtml_path_wf(k: int)
    requires
        0 <= k <= 0xFFFF,
    ensures
        0 < spec_xhtml_path(k).len() <= 30,
        spec_xhtml_path(k)[0] == 'p',
        forall|i: int| 0 <= i < spec_xhtml_path(k).len() ==> #[trigger] spec_xhtml_path(k)[i] != '\\',
{
    reveal_strlit("page-");
    reveal_strlit(".xhtml");
    assert(crate::digits::pow10(5) == 100000) by {
        reveal_with_fuel(crate::digits::pow10, 6);
    }
    crate::digits::lemma_dec_len_bound(k, 5);
    crate::digits::lemma_dec_len_pos(k);
    crate::digits::lemma_dec_digits(k);
}

/// Distinct pages get distinct image paths.
pub proof fn lemma_image_path_injective(a: int, b: int)
    requires
        0 <= a,
        0 <= b,
        spec_image_path(a) == spec_image_path(b),
    ensures
        a == b,
{
    reveal_strlit("images/");
    reveal_strlit("cover.jpeg");
    reveal_strlit("page-");
    reveal_strlit(".jpeg");
    crate::digits::lemma_dec_len_pos(a);
    crate::digits::lemma_dec_len_pos(b);
    if a == 0 && b > 0 {
        assert(spec_image_path(a)[7] == 'c');
        assert(spec_image_path(b)[7] == 'p');
    } else if a > 0 && b == 0 {
        assert(spec_image_path(a)[7] == 'p');
        assert(spec_image_path(b)[7] == 'c');
    } else if a > 0 && b > 0 {
        let da = spec_dec(a);
        let db = spec_dec(b);
        assert(spec_image_path(a).len() == 17 + da.len());
        assert(spec_image_path(b).len() == 17 + db.len());
        assert(da.len() == db.len());
        assert(da =~= db) by {
            assert(forall|i: int|
                0 <= i < da.len() ==> spec_image_path(a)[12 + i] == #[trigger] da[i]);
            assert(forall|i: int|
                0 <= i < db.len() ==> spec_image_path(b)[12 + i] == #[trigger] db[i]);
        }
        crate::digits::lemma_dec_injective(a, b);
    }
}

/// Distinct pages get distinct markup paths.
pub proof fn lemma_xhtml_path_injective(a: int, b: int)
    requires
        0 <= a,
        0 <= b,
        spec_xhtml_path(a) == spec_xhtml_path(b),
    ensures
        a == b,
{
    reveal_strlit("page-");
    reveal_strlit(".xhtml");
    crate::digits::lemma_dec_len_pos(a);
    crate::digits::lemma_dec_len_pos(b);
    let da = spec_dec(a);
    let db = spec_dec(b);
    assert(spec_xhtml_path(a).len() == 11 + da.len());
    assert(spec_xhtml_path(b).len() == 11 + db.len());
    assert(da.len() == db.len());
    assert(da =~= db) by {
        assert(forall|i: int| 0 <= i < da.len() ==> spec_xhtml_path(a)[5 + i] == #[trigger] da[i]);
        assert(forall|i: int| 0 <= i < db.len() ==> spec_xhtml_path(b)[5 + i] == #[trigger] db[i]);
    }
    crate::digits::lemma_dec_injective(a, b);
}

/// An image path never equals a markup path: the families live apart.
pub proof fn lemma_image_xhtml_distinct(a: int, b: int)
    requires
        0 <= a,
        0 <= b,
    ensures
        spec_image_path(a) != spec_xhtml_path(b),
{
    reveal_strlit("images/");
    reveal_strlit("page-");
    crate::digits::lemma_dec_len_pos(b);
    assert(spec_image_path(a)[0] == 'i');
    assert(spec_xhtml_path(b)[0] == 'p');
}

/// Human-readable title of a page's content entry.
pub open spec fn spec_page_title(page: int) -> Seq<char> {
    if page == 0 {
        "Cover"@
    } else {
        "Page "@ + spec_dec(page)
    }
}

/// File name of the image resource for `page`.
pub fn image_file(page: usize) -> (s: String)
    ensures
        s@ == spec_image_file(page as int),
{
    if page == 0 {
        let s = "cover.jpeg".to_owned();
        proof {
            assert(s@ =~= spec_image_file(page as int));
        }
        s
    } else {
        let s = "page-".to_owned().concat(usize_string(page).as_str()).concat(".jpeg");
        proof {
            assert(s@ =~= spec_image_file(page as int));
        }
        s
    }
}

/// Archive path of the image resource for `page`.
pub fn image_path(page: usize) -> (s: String)
    ensures
        s@ == spec_image_path(page as int),
{
    let s = "images/".to_owned().concat(image_file(page).as_str());
    proof {
        assert(s@ =~= spec_image_path(page as int));
    }
    s
}

/// Archive path of the markup page for `page`.
pub fn xhtml_path(page: usize) -> (s: String)
    ensures
        s@ == spec_xhtml_path(page as int),
{
    let s = "page-".to_owned().concat(usize_string(page).as_str()).concat(".xhtml");
    proof {
        assert(s@ =~= spec_xhtml_path(page as int));
    }
    s
}

/// Title of the content entry for `page`.
pub fn page_title(page: usize) -> (s: String)
    ensures
        s@ == spec_page_title(page as int),
{
    if page == 0 {
        let s = "Cover".to_owned();
        proof {
            assert(s@ =~= spec_page_title(page as int));
        }
        s
    } else {
        let s = "Page ".to_owned().concat(usize_string(page).as_str());
        proof {
            assert(s@ =~= spec_page_title(page as int));
        }
        s
    }
}

/// The markup page wrapping one image: a minimal XHTML document whose body
/// shows the image at `path` and whose title names the page number.
pub open spec fn spec_image_template(page: int, path: Seq<char>) -> Seq<char> {
    "<?xml version='1.0' encoding='utf-8'?>\n<html xmlns=\"http://www.w3.org/1999/xhtml\">\n  <head>\n    <title>Page #"@
        + spec_dec(page)
        + "</title>\n    <meta http-equiv=\"Content-Type\" content=\"text/html; charset=utf-8\"/>\n  </head>\n  <body>\n    <img src=\""@
        + path
        + "\" alt=\"comic page #"@
        + spec_dec(page)
        + "\" />\n  </body>\n</html>"@
}

impl Page {
    /// Renders the markup page that wraps one image.
    pub fn image_template(page: usize, path: String) -> (s: String)
        ensures
            s@ == spec_image_template(page as int, path@),
    {
        let number = usize_string(page);
        let s =
            "<?xml version='1.0' encoding='utf-8'?>\n<html xmlns=\"http://www.w3.org/1999/xhtml\">\n  <head>\n    <title>Page #".to_owned()
            .concat(number.as_str())
            .concat("</title>\n    <meta http-equiv=\"Content-Type\" content=\"text/html; charset=utf-8\"/>\n  </head>\n  <body>\n    <img src=\"")
            .concat(path.as_str())
            .concat("\" alt=\"comic page #")
            .concat(number.as_str())
            .concat("\" />\n  </body>\n</html>");
        proof {
            assert(s@ =~= spec_image_template(page as int, path@));
        }
        s
    }
}

} // verus!
