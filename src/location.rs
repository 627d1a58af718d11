//! Asset URLs and the mapping from URLs to relative paths on disk.

use vstd::prelude::*;

use crate::error::MirrorError;

verus! {

/// The serialization of the URL that `url::Url::parse` reads from `text`,
/// or `None` where it refuses `text`.
pub uninterp spec fn parsed_href(text: Seq<char>) -> Option<Seq<char>>;

/// The host, as `url::Url::host_str` gives it, of the URL serialized as `href`.
pub uninterp spec fn host_of(href: Seq<char>) -> Option<Seq<char>>;

/// The path segments, as `url::Url::path_segments` gives them, of the URL
/// serialized as `href` (`None` for a URL that cannot be a base).
pub uninterp spec fn segments_of(href: Seq<char>) -> Option<Seq<Seq<char>>>;

/// The parts of a URL that the url crate hands over.
struct UrlParts {
    href: String,
    host: Option<String>,
    segments: Option<Vec<String>>,
}

pub open spec fn opt_str_view(o: Option<String>) -> Option<Seq<char>> {
    match o {
        Some(s) => Some(s@),
        None => None,
    }
}

pub open spec fn opt_segs_view(o: Option<Vec<String>>) -> Option<Seq<Seq<char>>> {
    match o {
        Some(v) => Some(v.deep_view()),
        None => None,
    }
}

/// Relies on `url::Url::parse`, and on `as_str`, `host_str` and
/// `path_segments` of the parsed URL. `path_segments` splits the path after
/// its leading `/` at each `/`, so a hierarchical URL has at least one
/// segment and no segment holds a `/`.
#[verifier::external_body]
fn parse_url(text: &str) -> (r: Option<UrlParts>)
    ensures
        r is Some <==> parsed_href(text@) is Some,
        r matches Some(p) ==> p.href@ == parsed_href(text@)->0,
        r matches Some(p) ==> opt_str_view(p.host) == host_of(p.href@),
        r matches Some(p) ==> opt_segs_view(p.segments) == segments_of(p.href@),
        r matches Some(p) ==> (p.segments matches Some(v) ==> v.len() >= 1),
        r matches Some(p) ==> (p.segments matches Some(v) ==> no_slash_in(v.deep_view())),
{
    match url::Url::parse(text) {
        Ok(u) => Some(UrlParts {
            href: u.as_str().to_string(),
            host: u.host_str().map(String::from),
            segments: u.path_segments().map(|s| s.map(String::from).collect()),
        }),
        Err(_) => None,
    }
}

/// The serialization of the URL that `url::Url::join` makes of `reference`
/// against the URL serialized as `base`, or `None` where it fails.
pub uninterp spec fn joined_href(base: Seq<char>, reference: Seq<char>) -> Option<Seq<char>>;

/// Relies on `url::Url::join`, on the URL that `url::Url::parse` reads back
/// from the serialization `base`, and on the same readers of the result as
/// `parse_url`.
#[verifier::external_body]
fn join_url(base: &str, reference: &str) -> (r: Option<UrlParts>)
    ensures
        r is Some <==> joined_href(base@, reference@) is Some,
        r matches Some(p) ==> p.href@ == joined_href(base@, reference@)->0,
        r matches Some(p) ==> opt_str_view(p.host) == host_of(p.href@),
        r matches Some(p) ==> opt_segs_view(p.segments) == segments_of(p.href@),
        r matches Some(p) ==> (p.segments matches Some(v) ==> v.len() >= 1),
        r matches Some(p) ==> (p.segments matches Some(v) ==> no_slash_in(v.deep_view())),
{
    match url::Url::parse(base) {
        Ok(b) => match b.join(reference) {
            Ok(u) => Some(UrlParts {
                href: u.as_str().to_string(),
                host: u.host_str().map(String::from),
                segments: u.path_segments().map(|s| s.map(String::from).collect()),
            }),
            Err(_) => None,
        },
        Err(_) => None,
    }
}

/// No segment holds a `/`: segments are what splitting a path on `/` leaves.
pub open spec fn no_slash_in(segs: Seq<Seq<char>>) -> bool {
    forall|i: int, j: int| 0 <= i < segs.len() && 0 <= j < segs[i].len() ==> segs[i][j] != '/'
}

/// The segments joined with `/` between them.
pub open spec fn join_segments(segs: Seq<Seq<char>>) -> Seq<char>
    decreases segs.len(),
{
    if segs.len() == 0 {
        Seq::empty()
    } else if segs.len() == 1 {
        segs[0]
    } else {
        join_segments(segs.drop_last()) + seq!['/'] + segs.last()
    }
}

/// The path of a hierarchical URL with these segments.
pub open spec fn path_of(segs: Seq<Seq<char>>) -> Seq<char> {
    seq!['/'] + join_segments(segs)
}

/// What a mirrored asset URL is: its serialization, its host and its path segments.
pub ghost struct UrlView {
    pub href: Seq<char>,
    pub host: Option<Seq<char>>,
    pub segments: Seq<Seq<char>>,
}

impl UrlView {
    pub open spec fn well_formed(self) -> bool {
        &&& self.host == host_of(self.href)
        &&& segments_of(self.href) == Some(self.segments)
        &&& self.segments.len() >= 1
        &&& no_slash_in(self.segments)
    }
}

/// An absolute URL with a hierarchical path.
pub struct AssetUrl {
    href: String,
    host: Option<String>,
    segments: Vec<String>,
}

impl View for AssetUrl {
    type V = UrlView;

    closed spec fn view(&self) -> UrlView {
        UrlView { href: self.href@, host: opt_str_view(self.host), segments: self.segments.deep_view() }
    }
}

impl AssetUrl {
    #[verifier::type_invariant]
    pub open spec fn inv(self) -> bool {
        self@.well_formed()
    }

    /// The URL made of `parts`, where they describe a hierarchical URL.
    fn from_parts(parts: UrlParts) -> (r: Result<AssetUrl, MirrorError>)
        requires
            opt_str_view(parts.host) == host_of(parts.href@),
            opt_segs_view(parts.segments) == segments_of(parts.href@),
            parts.segments matches Some(v) ==> v.len() >= 1,
            parts.segments matches Some(v) ==> no_slash_in(v.deep_view()),
        ensures
            parts.segments is None ==> r == Err::<AssetUrl, MirrorError>(MirrorError::NotHierarchical),
            parts.segments is Some ==> r is Ok,
            r matches Ok(u) ==> u@.href == parts.href@,
            r matches Ok(u) ==> u@ == url_at(u@.href),
    {
        match parts.segments {
            Some(segments) => Ok(AssetUrl { href: parts.href, host: parts.host, segments }),
            None => Err(MirrorError::NotHierarchical),
        }
    }
}

/// A serialization, or the error that reading a URL from it ends in.
pub open spec fn href_outcome(h: Option<Seq<char>>) -> Result<Seq<char>, MirrorError> {
    match h {
        None => Err(MirrorError::InvalidUrl),
        Some(href) => if segments_of(href) is Some {
            Ok(href)
        } else {
            Err(MirrorError::NotHierarchical)
        },
    }
}

/// The URL that the url crate reads from the serialization `href`.
pub open spec fn url_at(href: Seq<char>) -> UrlView {
    UrlView { href, host: host_of(href), segments: segments_of(href)->0 }
}

pub open spec fn href_result(r: Result<AssetUrl, MirrorError>) -> Result<Seq<char>, MirrorError> {
    match r {
        Ok(u) => Ok(u@.href),
        Err(e) => Err(e),
    }
}

impl Clone for AssetUrl {
    fn clone(&self) -> (r: Self)
        ensures
            r@ == self@,
    {
        proof {
            use_type_invariant(self);
        }
        let segments = self.segments.clone();
        proof {
            assert(segments.deep_view() =~= self.segments.deep_view());
        }
        AssetUrl { href: self.href.clone(), host: self.host.clone(), segments }
    }
}

impl AssetUrl {
    /// Reads an absolute URL with a hierarchical path from `text`.
    pub fn parse(text: &str) -> (r: Result<AssetUrl, MirrorError>)
        ensures
            href_result(r) == href_outcome(parsed_href(text@)),
            r matches Ok(u) ==> u@ == url_at(u@.href),
    {
        match parse_url(text) {
            Some(parts) => AssetUrl::from_parts(parts),
            None => Err(MirrorError::InvalidUrl),
        }
    }

    /// Resolves `reference` against this URL, as a link inside the document
    /// at this URL is resolved.
    pub fn resolve(&self, reference: &str) -> (r: Result<AssetUrl, MirrorError>)
        ensures
            href_result(r) == href_outcome(joined_href(self@.href, reference@)),
            r matches Ok(u) ==> u@ == url_at(u@.href),
    {
        match join_url(self.href.as_str(), reference) {
            Some(parts) => AssetUrl::from_parts(parts),
            None => Err(MirrorError::InvalidUrl),
        }
    }

    /// The serialization of this URL.
    pub fn as_str(&self) -> (r: &str)
        ensures
            r@ == self@.href,
    {
        self.href.as_str()
    }

    /// The host of this URL, if it has one.
    pub fn host(&self) -> (r: Option<&str>)
        ensures
            match r {
                Some(h) => self@.host == Some(h@),
                None => self@.host is None,
            },
    {
        match &self.host {
            Some(h) => Some(h.as_str()),
            None => None,
        }
    }

    /// Whether the two URLs have the same host, or both have none.
    pub fn same_host(&self, other: &AssetUrl) -> (r: bool)
        ensures
            r == (self@.host == other@.host),
    {
        match (&self.host, &other.host) {
            (Some(a), Some(b)) => a.eq(b),
            (None, None) => true,
            _ => false,
        }
    }

    /// The path segments of this URL.
    pub fn segments(&self) -> (r: &Vec<String>)
        ensures
            r.deep_view() == self@.segments,
            self@.well_formed(),
    {
        proof {
            use_type_invariant(self);
        }
        &self.segments
    }
}


/// `n` is the length of the longest run of leading segments that `a` and `b` share.
pub open spec fn is_shared_prefix_len(a: Seq<Seq<char>>, b: Seq<Seq<char>>, n: int) -> bool {
    &&& 0 <= n <= a.len()
    &&& n <= b.len()
    &&& forall|i: int| 0 <= i < n ==> a[i] == b[i]
    &&& (n == a.len() || n == b.len() || a[n] != b[n])
}

/// The length of the longest shared leading run of segments.
pub open spec fn shared_prefix_len(a: Seq<Seq<char>>, b: Seq<Seq<char>>) -> int {
    choose|n: int| is_shared_prefix_len(a, b, n)
}

/// The segments of `target` that follow what it shares with `base`.
pub open spec fn relative_segments(base: Seq<Seq<char>>, target: Seq<Seq<char>>) -> Seq<Seq<char>> {
    target.subrange(shared_prefix_len(base, target), target.len() as int)
}

/// The relative path from `base` to `target`, or the error when their hosts differ.
pub open spec fn relative_path_of(base: UrlView, target: UrlView) -> Result<Seq<Seq<char>>, MirrorError> {
    if base.host != target.host {
        Err(MirrorError::HostMismatch)
    } else {
        Ok(relative_segments(base.segments, target.segments))
    }
}

/// There is one longest shared prefix.
pub proof fn lemma_shared_prefix_len_unique(a: Seq<Seq<char>>, b: Seq<Seq<char>>, n: int)
    requires
        is_shared_prefix_len(a, b, n),
    ensures
        shared_prefix_len(a, b) == n,
{
    let m = shared_prefix_len(a, b);
    assert(is_shared_prefix_len(a, b, m));
    if m < n {
        assert(a[m] == b[m]);
    } else if n < m {
        assert(a[n] == b[n]);
    }
}

/// The segments of `target` are those it shares with `base`, then the relative path.
pub proof fn lemma_relative_segments_complete(a: Seq<Seq<char>>, b: Seq<Seq<char>>, n: int)
    requires
        is_shared_prefix_len(a, b, n),
    ensures
        b == b.subrange(0, n) + relative_segments(a, b),
        forall|i: int| 0 <= i < n ==> a[i] == b[i],
{
    lemma_shared_prefix_len_unique(a, b, n);
    assert(b =~= b.subrange(0, n) + b.subrange(n, b.len() as int));
}

proof fn lemma_shared_prefix_from(a: Seq<Seq<char>>, b: Seq<Seq<char>>, k: int)
    requires
        0 <= k <= a.len(),
        k <= b.len(),
        forall|i: int| 0 <= i < k ==> a[i] == b[i],
    ensures
        exists|n: int| is_shared_prefix_len(a, b, n),
    decreases a.len() - k,
{
    if k == a.len() || k == b.len() || a[k] != b[k] {
        assert(is_shared_prefix_len(a, b, k));
    } else {
        lemma_shared_prefix_from(a, b, k + 1);
    }
}

/// For two URLs on one host, the relative path is determined by their
/// segments alone: it is what follows, in the target's segments, the longest
/// leading run shared with the base's segments, so that the target's segments
/// are that shared run followed by the relative path.
pub proof fn lemma_relative_path_is_suffix(base: UrlView, target: UrlView)
    requires
        base.host == target.host,
    ensures
        is_shared_prefix_len(base.segments, target.segments, shared_prefix_len(base.segments, target.segments)),
        relative_path_of(base, target) == Ok::<Seq<Seq<char>>, MirrorError>(relative_segments(base.segments, target.segments)),
        target.segments == base.segments.take(shared_prefix_len(base.segments, target.segments))
            + relative_segments(base.segments, target.segments),
{
    let a = base.segments;
    let b = target.segments;
    lemma_shared_prefix_from(a, b, 0);
    let n = shared_prefix_len(a, b);
    lemma_relative_segments_complete(a, b, n);
    assert(a.take(n) =~= b.subrange(0, n));
}

/// A path relative to the output directory, as a sequence of segments.
pub struct RelativePath {
    pub segments: Vec<String>,
}

impl Clone for RelativePath {
    fn clone(&self) -> (r: Self)
        ensures
            r.segments.deep_view() == self.segments.deep_view(),
    {
        let segments = self.segments.clone();
        proof {
            assert(segments.deep_view() =~= self.segments.deep_view());
        }
        RelativePath { segments }
    }
}

impl RelativePath {
    /// The segments joined with `/`.
    pub fn to_path_string(&self) -> (r: String)
        ensures
            r@ == join_segments(self.segments.deep_view()),
    {
        let ghost segs = self.segments.deep_view();
        let mut out = String::new();
        let mut i: usize = 0;
        while i < self.segments.len()
            invariant
                i <= self.segments.len(),
                segs == self.segments.deep_view(),
                out@ == join_segments(segs.subrange(0, i as int)),
            decreases self.segments.len() - i,
        {
            proof {
                assert(segs.subrange(0, i + 1).drop_last() =~= segs.subrange(0, i as int));
            }
            if i > 0 {
                out.append("/");
                proof {
                    reveal_strlit("/");
                }
            }
            out.append(self.segments[i].as_str());
            i += 1;
        }
        proof {
            assert(segs.subrange(0, i as int) =~= segs);
        }
        out
    }
}

/// The path of `target` relative to `base`: the segments of `target` after
/// the longest run of leading segments it shares with `base`.
pub fn get_relative_path(base: &AssetUrl, target: &AssetUrl) -> (r: Result<RelativePath, MirrorError>)
    ensures
        match r {
            Ok(p) => relative_path_of(base@, target@) == Ok::<Seq<Seq<char>>, MirrorError>(p.segments.deep_view()),
            Err(e) => relative_path_of(base@, target@) == Err::<Seq<Seq<char>>, MirrorError>(e),
        },
{
    if !base.same_host(target) {
        return Err(MirrorError::HostMismatch);
    }
    let a = base.segments();
    let b = target.segments();
    let ghost av = a.deep_view();
    let ghost bv = b.deep_view();
    let mut i: usize = 0;
    while i < a.len() && i < b.len() && a[i] == b[i]
        invariant
            i <= a.len(),
            i <= b.len(),
            av == a.deep_view(),
            bv == b.deep_view(),
            forall|k: int| 0 <= k < i ==> av[k] == bv[k],
        decreases a.len() - i,
    {
        i += 1;
    }
    proof {
        lemma_shared_prefix_len_unique(av, bv, i as int);
    }
    let mut segments: Vec<String> = Vec::new();
    let mut j: usize = i;
    while j < b.len()
        invariant
            i <= j <= b.len(),
            bv == b.deep_view(),
            segments.deep_view() == bv.subrange(i as int, j as int),
        decreases b.len() - j,
    {
        let ghost before = segments.deep_view();
        let seg = b[j].clone();
        segments.push(seg);
        proof {
            assert(segments.deep_view() =~= before.push(bv[j as int]));
            assert(segments.deep_view() =~= bv.subrange(i as int, j + 1));
        }
        j += 1;
    }
    Ok(RelativePath { segments })
}


/// The name under which the asset at a URL with these segments is stored:
/// none where the path ends in `/`; the last segment, with the one before it
/// in front where it begins with `.`.
pub open spec fn file_name_of(segs: Seq<Seq<char>>) -> Option<Seq<char>> {
    let last = segs.last();
    if last.len() == 0 {
        None
    } else if last[0] == '.' && segs.len() >= 2 {
        Some(segs[segs.len() - 2] + last)
    } else {
        Some(last)
    }
}

/// A URL has a file name exactly when its path does not end in `/`.
pub proof fn lemma_file_name_iff_no_trailing_slash(url: UrlView)
    requires
        url.well_formed(),
    ensures
        file_name_of(url.segments) is None <==> path_of(url.segments).last() == '/',
{
    let segs = url.segments;
    let last = segs.last();
    if segs.len() >= 2 {
        assert(join_segments(segs) == join_segments(segs.drop_last()) + seq!['/'] + last);
    }
    if last.len() > 0 {
        assert(last[last.len() - 1] != '/');
    }
}

/// The file name of the asset at `url`: `None` where its path ends in `/`;
/// otherwise its last path segment, with the segment before it in front where
/// the last one begins with `.`.
pub fn get_filename_from_url(url: &AssetUrl) -> (r: Option<String>)
    ensures
        match r {
            Some(name) => file_name_of(url@.segments) == Some(name@),
            None => file_name_of(url@.segments) is None,
        },
{
    let segs = url.segments();
    let n = segs.len();
    let last = &segs[n - 1];
    if last.as_str().is_empty() {
        return None;
    }
    if last.as_str().get_char(0) == '.' && n >= 2 {
        let name = segs[n - 2].clone().concat(last.as_str());
        Some(name)
    } else {
        Some(last.clone())
    }
}

/// The URL of the directory that holds `url`: its last path segment replaced
/// by nothing, as resolving `./` against it gives.
pub fn get_base_url(url: &AssetUrl) -> (r: Result<AssetUrl, MirrorError>)
    ensures
        href_result(r) == href_outcome(joined_href(url@.href, "./"@)),
        r matches Ok(u) ==> u@ == url_at(u@.href),
{
    url.resolve("./")
}

} // verus!
