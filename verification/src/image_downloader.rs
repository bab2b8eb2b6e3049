//! The image search: where to ask, and which addresses a result page offers.
use vstd::prelude::*;
use vstd::string::StringExecFns;

verus! {

/// The address of the image search, up to the words searched for.
pub const SEARCH_ADDRESS: &'static str = "https://images.search.yahoo.com/search/images?imgty=clipart&p=";

/// The pattern that finds the images of a result page; its first group is the address.
pub const IMAGE_PATTERN: &'static str = "<img data-src='([^']+)' alt=''";

/// What went wrong with a download.
#[derive(Debug)]
pub enum DownloadImageError {
    /// The download failed, for the reason given.
    Error(String),
    /// Every image of the page has been asked for.
    NoImagesLeft,
}

/// The texts that strings hold.
pub open spec fn strings(list: Seq<String>) -> Seq<Seq<char>> {
    Seq::new(list.len(), |i: int| list[i]@)
}

/// For each match of a pattern in a text, in the order of the text, what its first
/// group matched: what `regex::Regex::captures_iter` yields, with the empty text for
/// a group that took no part in a match. Nothing for a pattern that `regex::Regex::new`
/// refuses.
pub uninterp spec fn first_groups(pattern: Seq<char>, page: Seq<char>) -> Option<Seq<Seq<char>>>;

/// Calls `regex::Regex::new` on the pattern and `regex::Regex::captures_iter` on the
/// text, and takes the first group of each match. The result is a function of the
/// two texts alone and is known here only by its name.
#[verifier::external_body]
fn find_first_groups(pattern: &str, page: &str) -> (found: Option<Vec<String>>)
    ensures
        match found {
            Some(list) => first_groups(pattern@, page@) == Some(strings(list@)),
            None => first_groups(pattern@, page@) is None,
        },
{
    let regex = regex::Regex::new(pattern).ok()?;
    Some(
        regex.captures_iter(page).map(
            |found| found.get(1).map_or("", |group| group.as_str()).to_string(),
        ).collect(),
    )
}

/// The address that searches for `image_query`.
pub fn search_url(image_query: &str) -> (url: String)
    ensures
        url@ == SEARCH_ADDRESS@ + image_query@,
{
    String::from_str(SEARCH_ADDRESS).concat(image_query)
}

/// The addresses that a list of matches offers for download, the most important first.
pub open spec fn offered(found: Option<Seq<Seq<char>>>) -> Seq<Seq<char>> {
    match found {
        Some(list) => list,
        None => Seq::empty(),
    }
}

/// The images of one result page that have not been asked for yet. Its view is the
/// list of their addresses, the next one first.
pub struct ImageDownloader {
    url_list: Vec<String>,
}

impl View for ImageDownloader {
    type V = Seq<Seq<char>>;

    closed spec fn view(&self) -> Seq<Seq<char>> {
        strings(self.url_list@).reverse()
    }
}

impl ImageDownloader {
    /// The images that the matches `found` on a result page offer, in their order.
    pub fn from_matches(found: Option<Vec<String>>) -> (downloader: ImageDownloader)
        ensures
            downloader@ == offered(
                match found {
                    Some(list) => Some(strings(list@)),
                    None => None,
                },
            ),
    {
        let mut list = match found {
            Some(list) => list,
            None => Vec::new(),
        };
        let ghost all = strings(list@);
        // most important ones first
        let mut url_list: Vec<String> = Vec::new();
        while list.len() > 0
            invariant
                strings(list@) == all.take(list.len() as int),
                url_list.len() + list.len() == all.len(),
                forall|i: int|
                    0 <= i < url_list.len() ==> (#[trigger] url_list[i])@ == all[all.len() - 1 - i],
            decreases list.len(),
        {
            let ghost before = strings(list@);
            match list.pop() {
                Some(url) => {
                    assert(url@ == before[before.len() - 1]);
                    assert(strings(list@) =~= all.take(list.len() as int));
                    url_list.push(url);
                },
                None => {},
            }
        }
        let downloader = ImageDownloader { url_list };
        assert(downloader@ =~= all);
        downloader
    }

    /// The images that a result page offers, in the order of the page.
    pub fn from_page(page: &str) -> (downloader: ImageDownloader)
        ensures
            downloader@ == offered(first_groups(IMAGE_PATTERN@, page@)),
    {
        ImageDownloader::from_matches(find_first_groups(IMAGE_PATTERN, page))
    }

    /// How many images are left.
    pub fn len(&self) -> (n: usize)
        ensures
            n == self@.len(),
    {
        self.url_list.len()
    }

    /// The address of the next image, which is then no longer offered.
    pub fn next_url(&mut self) -> (res: Result<String, DownloadImageError>)
        ensures
            match res {
                Ok(url) => old(self)@.len() > 0 && url@ == old(self)@[0] && final(self)@ == old(
                    self,
                )@.drop_first(),
                Err(e) => old(self)@.len() == 0 && final(self)@ == old(self)@ && e
                    is NoImagesLeft,
            },
    {
        let ghost before = strings(self.url_list@);
        match self.url_list.pop() {
            Some(url) => {
                proof {
                    let after = strings(self.url_list@);
                    assert(after =~= before.drop_last());
                    assert(after.reverse() =~= before.reverse().drop_first());
                }
                Ok(url)
            },
            None => Err(DownloadImageError::NoImagesLeft),
        }
    }
}

} // verus!
