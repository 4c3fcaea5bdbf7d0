//! The release catalog: extracting version links from the fetched index
//! page, ordering them newest first, and resolving specifiers.

use vstd::multiset::Multiset;
use vstd::prelude::*;

use crate::node_version::{
    digits_val, is_component, spec_render_full, spec_satisfies, split_dots, version_le,
    FullVersion, NodeVersion,
};

verus! {

/// Base URL of the published release index.
pub const NODE_URL: &'static str = "https://nodejs.org/dist/";

/// The `href` attribute values of the anchor elements of an HTML page, in
/// document order; they depend on the page text alone.
pub uninterp spec fn hrefs_of(page: Seq<char>) -> Seq<Seq<char>>;

/// Collects the `href` attributes of the anchor elements of `page`.
///
/// Relies on scraper's `Html::parse_fragment` and `Selector::parse`: the
/// anchor elements of the parsed document, in document order, and their
/// attribute values are a function of the page text.
#[verifier::external_body]
fn extract_hrefs(page: &str) -> (r: Vec<String>)
    ensures
        r.deep_view() == hrefs_of(page@),
{
    let document = scraper::Html::parse_fragment(page);
    let selector = scraper::Selector::parse("a").unwrap();
    document.select(&selector).filter_map(|element| element.value().attr("href")).map(
        String::from,
    ).collect()
}

/// A candidate catalog link: a leading `v`, three well-formed dot-separated
/// numeric components, and a trailing slash.
pub open spec fn is_version_link(s: Seq<char>) -> bool {
    let parts = split_dots(s.subrange(1, s.len() - 1));
    s.len() >= 2 && s[0] == 'v' && s.last() == '/' && parts.len() == 3 && is_component(parts[0])
        && is_component(parts[1]) && is_component(parts[2])
}

/// The full version named by a candidate link.
pub open spec fn link_version(s: Seq<char>) -> FullVersion {
    let parts = split_dots(s.subrange(1, s.len() - 1));
    FullVersion {
        major: digits_val(parts[0]) as u64,
        minor: digits_val(parts[1]) as u64,
        patch: digits_val(parts[2]) as u64,
    }
}

/// The version a link contributes to the catalog, if any.
pub open spec fn link_to_version(s: Seq<char>) -> Option<FullVersion> {
    if is_version_link(s) {
        Some(link_version(s))
    } else {
        None
    }
}

/// The versions of the candidate links among `hrefs`, in page order;
/// malformed links contribute nothing.
pub open spec fn catalog_of(hrefs: Seq<Seq<char>>) -> Seq<FullVersion>
    decreases hrefs.len(),
{
    if hrefs.len() == 0 {
        Seq::empty()
    } else {
        let rest = catalog_of(hrefs.drop_last());
        match link_to_version(hrefs.last()) {
            Some(v) => rest.push(v),
            None => rest,
        }
    }
}

/// Parse one link: a version exactly when the link has the candidate shape.
pub fn parse_version_link(href: &str) -> (r: Option<FullVersion>)
    ensures
        r == link_to_version(href@),
{
    let len = href.unicode_len();
    if len < 2 {
        return None;
    }
    if href.get_char(0) != 'v' {
        return None;
    }
    if href.get_char(len - 1) != '/' {
        return None;
    }
    let body = href.substring_char(1, len - 1);
    match NodeVersion::try_from(body) {
        Ok(NodeVersion::Specific(major, minor, patch)) => Some(
            FullVersion { major, minor, patch },
        ),
        _ => None,
    }
}

/// `s` is ordered newest first.
pub open spec fn sorted_desc(s: Seq<FullVersion>) -> bool {
    forall|i: int, j: int| 0 <= i <= j < s.len() ==> version_le(#[trigger] s[j], #[trigger] s[i])
}

/// The first entry satisfying `request`, scanning front to back.
pub open spec fn spec_resolve(cat: Seq<FullVersion>, request: NodeVersion) -> Option<FullVersion>
    decreases cat.len(),
{
    if cat.len() == 0 {
        None
    } else if spec_satisfies(cat.first(), request) {
        Some(cat.first())
    } else {
        spec_resolve(cat.drop_first(), request)
    }
}

/// `v` is the newest entry of `cat` satisfying `request`.
pub open spec fn resolves_to(cat: Seq<FullVersion>, request: NodeVersion, v: FullVersion) -> bool {
    &&& cat.contains(v)
    &&& spec_satisfies(v, request)
    &&& forall|w: FullVersion| cat.contains(w) && spec_satisfies(w, request) ==> version_le(w, v)
}

/// Resolution is unique: at most one catalog entry is the newest satisfying
/// one.
pub proof fn lemma_resolution_unique(cat: Seq<FullVersion>, request: NodeVersion, a: FullVersion, b: FullVersion)
    requires
        resolves_to(cat, request, a),
        resolves_to(cat, request, b),
    ensures
        a == b,
{
    crate::node_version::lemma_version_order_antisymmetric(a, b);
}

/// Insert `v` into a descending list, keeping it descending.
fn insert_desc(list: Vec<FullVersion>, v: FullVersion) -> (r: Vec<FullVersion>)
    requires
        sorted_desc(list@),
    ensures
        sorted_desc(r@),
        r@.to_multiset() == list@.to_multiset().insert(v),
        r@.len() == list@.len() + 1,
{
    broadcast use vstd::seq_lib::group_seq_properties;

    let mut out: Vec<FullVersion> = Vec::new();
    let mut i: usize = 0;
    while i < list.len() && !list[i].le(&v)
        invariant
            0 <= i <= list@.len(),
            sorted_desc(list@),
            out@ =~= list@.take(i as int),
            forall|j: int| 0 <= j < i ==> !version_le(#[trigger] list@[j], v),
        decreases list@.len() - i,
    {
        out.push(list[i]);
        i = i + 1;
    }
    let ghost p = i as int;
    assert(p == list@.len() || version_le(list@[p], v));
    out.push(v);
    while i < list.len()
        invariant
            0 <= p <= i <= list@.len(),
            sorted_desc(list@),
            p == list@.len() || version_le(list@[p], v),
            forall|j: int| 0 <= j < p ==> !version_le(#[trigger] list@[j], v),
            out@ =~= list@.take(p) + seq![v] + list@.subrange(p, i as int),
        decreases list@.len() - i,
    {
        proof {
            assert(list@.subrange(p, i as int + 1) =~= list@.subrange(p, i as int).push(
                list@[i as int],
            ));
        }
        out.push(list[i]);
        assert(out@ =~= list@.take(p) + seq![v] + list@.subrange(p, i as int + 1));
        i = i + 1;
    }
    proof {
        assert(out@ =~= list@.take(p) + seq![v] + list@.subrange(p, list@.len() as int));
        assert(list@ =~= list@.take(p) + list@.subrange(p, list@.len() as int));
        lemma_sorted_insert(list@, v, p);
        lemma_insert_multiset(list@, v, p);
    }
    out
}

/// Placing `v` between the strictly newer prefix and the rest keeps the
/// list descending.
proof fn lemma_sorted_insert(list: Seq<FullVersion>, v: FullVersion, p: int)
    requires
        sorted_desc(list),
        0 <= p <= list.len(),
        forall|j: int| 0 <= j < p ==> !version_le(#[trigger] list[j], v),
        p == list.len() || version_le(list[p], v),
    ensures
        sorted_desc(list.take(p) + seq![v] + list.subrange(p, list.len() as int)),
{
    let s = list.take(p) + seq![v] + list.subrange(p, list.len() as int);
    assert forall|i: int, j: int| 0 <= i <= j < s.len() implies version_le(
        #[trigger] s[j],
        #[trigger] s[i],
    ) by {
        if i < p {
            crate::node_version::lemma_version_order_total(list[i], v);
            if j < p {
            } else if j == p {
            } else {
                assert(s[j] == list[j - 1]);
                assert(version_le(list[j - 1], list[i]));
            }
        } else if i == p {
            if j > p {
                assert(s[j] == list[j - 1]);
                assert(version_le(list[j - 1], list[p]));
                crate::node_version::lemma_version_order_transitive(list[j - 1], list[p], v);
            }
        } else {
            assert(s[i] == list[i - 1]);
            if j > i {
                assert(s[j] == list[j - 1]);
            }
        }
    }
}

/// Inserting an element at any position adds exactly it to the multiset.
proof fn lemma_insert_multiset(list: Seq<FullVersion>, v: FullVersion, p: int)
    requires
        0 <= p <= list.len(),
    ensures
        (list.take(p) + seq![v] + list.subrange(p, list.len() as int)).to_multiset()
            == list.to_multiset().insert(v),
{
    let front = list.take(p);
    let back = list.subrange(p, list.len() as int);
    vstd::seq_lib::lemma_multiset_commutative(front + seq![v], back);
    vstd::seq_lib::lemma_multiset_commutative(front, seq![v]);
    vstd::seq_lib::lemma_multiset_commutative(front, back);
    assert(list =~= front + back);
    assert(seq![v] =~= Seq::<FullVersion>::empty().push(v));
    Seq::<FullVersion>::empty().to_multiset_ensures();
    assert(seq![v].to_multiset() == Multiset::<FullVersion>::empty().insert(v));
    assert((front + seq![v] + back).to_multiset() =~= list.to_multiset().insert(v));
}

/// Order a list of versions newest first, keeping every entry.
fn sort_desc(list: Vec<FullVersion>) -> (r: Vec<FullVersion>)
    ensures
        sorted_desc(r@),
        r@.to_multiset() == list@.to_multiset(),
{
    let ghost unsorted = list@;
    let mut sorted: Vec<FullVersion> = Vec::new();
    let mut k: usize = 0;
    proof {
        unsorted.take(0).to_multiset_ensures();
        assert(unsorted.take(0) =~= Seq::<FullVersion>::empty());
        assert(sorted@ =~= unsorted.take(0));
    }
    while k < list.len()
        invariant
            0 <= k <= unsorted.len(),
            list@ == unsorted,
            sorted_desc(sorted@),
            sorted@.to_multiset() == unsorted.take(k as int).to_multiset(),
        decreases unsorted.len() - k,
    {
        proof {
            unsorted.take(k as int).to_multiset_ensures();
            assert(unsorted.take(k + 1) =~= unsorted.take(k as int).push(unsorted[k as int]));
        }
        sorted = insert_desc(sorted, list[k]);
        k = k + 1;
    }
    proof {
        assert(unsorted.take(unsorted.len() as int) =~= unsorted);
    }
    sorted
}

/// The catalog of published releases, ordered newest first.
pub struct VersionList {
    versions: Vec<FullVersion>,
}

impl View for VersionList {
    type V = Seq<FullVersion>;

    closed spec fn view(&self) -> Seq<FullVersion> {
        self.versions@
    }
}

impl VersionList {
    /// The catalog is ordered newest first.
    pub open spec fn well_formed(&self) -> bool {
        sorted_desc(self@)
    }

    /// Build the catalog from a fetched index page: every candidate version
    /// link of the page contributes its version, anything else is excluded,
    /// and the entries are ordered newest first.
    pub fn create(page: &str) -> (r: VersionList)
        ensures
            r.well_formed(),
            r@.to_multiset() == catalog_of(hrefs_of(page@)).to_multiset(),
    {
        let hrefs = extract_hrefs(page);
        let ghost all = hrefs.deep_view();
        let mut versions: Vec<FullVersion> = Vec::new();
        let mut i: usize = 0;
        assert(versions@ =~= catalog_of(all.take(0)));
        while i < hrefs.len()
            invariant
                0 <= i <= hrefs@.len(),
                all == hrefs.deep_view(),
                versions@ =~= catalog_of(all.take(i as int)),
            decreases hrefs@.len() - i,
        {
            proof {
                assert(all.take(i + 1).drop_last() =~= all.take(i as int));
                assert(hrefs@[i as int]@ =~= all[i as int]);
            }
            match parse_version_link(hrefs[i].as_str()) {
                Some(v) => {
                    versions.push(v);
                },
                None => {},
            }
            assert(versions@ =~= catalog_of(all.take(i + 1)));
            i = i + 1;
        }
        proof {
            assert(all.take(all.len() as int) =~= all);
        }
        let sorted = sort_desc(versions);
        VersionList { versions: sorted }
    }

    /// The catalog lists `version`.
    pub fn has_version(&self, version: &FullVersion) -> (r: bool)
        ensures
            r == self@.contains(*version),
    {
        let mut i: usize = 0;
        while i < self.versions.len()
            invariant
                0 <= i <= self@.len(),
                forall|j: int| 0 <= j < i ==> self@[j] != *version,
            decreases self@.len() - i,
        {
            if self.versions[i] == *version {
                return true;
            }
            i = i + 1;
        }
        false
    }

    /// Resolve a specifier to the newest satisfying entry: the maximum, in
    /// the version order, among the entries that satisfy it, or nothing if
    /// no entry does.
    pub fn latest_version_of(&self, request: &NodeVersion) -> (r: Option<FullVersion>)
        requires
            self.well_formed(),
        ensures
            r == spec_resolve(self@, *request),
            match r {
                Some(v) => resolves_to(self@, *request, v),
                None => forall|w: FullVersion|
                    self@.contains(w) ==> !spec_satisfies(w, *request),
            },
    {
        let mut i: usize = 0;
        proof {
            assert(self@.skip(0) =~= self@);
        }
        while i < self.versions.len()
            invariant
                0 <= i <= self@.len(),
                self.well_formed(),
                spec_resolve(self@.skip(i as int), *request) == spec_resolve(self@, *request),
                forall|j: int| 0 <= j < i ==> !spec_satisfies(#[trigger] self@[j], *request),
            decreases self@.len() - i,
        {
            proof {
                assert(self@.skip(i as int).drop_first() =~= self@.skip(i + 1));
                assert(self@.skip(i as int).first() == self@[i as int]);
            }
            if self.versions[i].satisfies(request) {
                let found = self.versions[i];
                proof {
                    assert(self@.contains(found)) by {
                        assert(self@[i as int] == found);
                    }
                    assert forall|w: FullVersion|
                        self@.contains(w) && spec_satisfies(w, *request) implies version_le(
                        w,
                        found,
                    ) by {
                        let k = choose|k: int| 0 <= k < self@.len() && self@[k] == w;
                        assert(!(k < i));
                        assert(version_le(self@[k], self@[i as int]));
                    }
                }
                return Some(found);
            }
            i = i + 1;
        }
        proof {
            assert(self@.skip(self@.len() as int) =~= Seq::<FullVersion>::empty());
        }
        None
    }

    /// The archive URL for the newest entry satisfying `request`: the index
    /// URL, the versioned directory, and the versioned archive file name.
    pub fn download_url(&self, request: &NodeVersion) -> (r: Option<String>)
        requires
            self.well_formed(),
        ensures
            match r {
                Some(u) => spec_resolve(self@, *request) is Some && u@ == spec_download_url(
                    spec_resolve(self@, *request).unwrap(),
                ),
                None => spec_resolve(self@, *request) is None,
            },
    {
        let version = match self.latest_version_of(request) {
            Some(v) => v,
            None => {
                return None;
            },
        };
        let rendered = version.version_string();
        let mut url = NODE_URL.to_owned();
        url.append("v");
        url.append(rendered.as_str());
        url.append("/node-v");
        url.append(rendered.as_str());
        url.append(".tar.gz");
        proof {
            assert(url@ =~= spec_download_url(version));
        }
        Some(url)
    }
}

/// The download URL of a concrete version against the release index.
pub open spec fn spec_download_url(v: FullVersion) -> Seq<char> {
    "https://nodejs.org/dist/"@ + "v"@ + spec_render_full(v) + "/node-v"@ + spec_render_full(v)
        + ".tar.gz"@
}

} // verus!
