//! The release data model: one cataloged repack entry, its mirrors and links,
//! and the mathematical views that the extraction and catalog contracts are
//! stated over. Publish instants are carried as seconds since the Unix epoch.

use vstd::prelude::*;

verus! {

/// A named download link belonging to a mirror.
pub struct Link {
    pub name: String,
    pub link: String,
}

/// The mathematical value of a link.
pub struct LinkView {
    pub name: Seq<char>,
    pub link: Seq<char>,
}

impl View for Link {
    type V = LinkView;

    open spec fn view(&self) -> LinkView {
        LinkView { name: self.name@, link: self.link@ }
    }
}

impl DeepView for Link {
    type V = LinkView;

    open spec fn deep_view(&self) -> LinkView {
        self.view()
    }
}

/// One download source: an ordered list of named links.
pub struct Mirror {
    pub links: Vec<Link>,
}

/// The mathematical value of a mirror.
pub struct MirrorView {
    pub links: Seq<LinkView>,
}

impl View for Mirror {
    type V = MirrorView;

    open spec fn view(&self) -> MirrorView {
        MirrorView { links: self.links.deep_view() }
    }
}

impl DeepView for Mirror {
    type V = MirrorView;

    open spec fn deep_view(&self) -> MirrorView {
        self.view()
    }
}

/// One cataloged repack release. Title, link and publish instant are the
/// required fields; everything else degrades to an empty value when the
/// source markup does not carry it.
pub struct Release {
    pub title: String,
    pub link: String,
    pub published: i64,
    pub cover_src: String,
    pub original_size: String,
    pub repack_size: String,
    pub mirrors: Vec<Mirror>,
    pub screenshots: Vec<String>,
    pub repack_description: String,
    pub game_description: String,
}

/// The mathematical value of a release.
pub struct ReleaseView {
    pub title: Seq<char>,
    pub link: Seq<char>,
    pub published: int,
    pub cover_src: Seq<char>,
    pub original_size: Seq<char>,
    pub repack_size: Seq<char>,
    pub mirrors: Seq<MirrorView>,
    pub screenshots: Seq<Seq<char>>,
    pub repack_description: Seq<char>,
    pub game_description: Seq<char>,
}

impl View for Release {
    type V = ReleaseView;

    open spec fn view(&self) -> ReleaseView {
        ReleaseView {
            title: self.title@,
            link: self.link@,
            published: self.published as int,
            cover_src: self.cover_src@,
            original_size: self.original_size@,
            repack_size: self.repack_size@,
            mirrors: self.mirrors.deep_view(),
            screenshots: self.screenshots.deep_view(),
            repack_description: self.repack_description@,
            game_description: self.game_description@,
        }
    }
}

impl DeepView for Release {
    type V = ReleaseView;

    open spec fn deep_view(&self) -> ReleaseView {
        self.view()
    }
}

/// A release together with the genre tags stored for it.
pub struct ReleaseWithInfo {
    pub release: Release,
    pub genres: Vec<String>,
}

/// What extraction yields: the release and its three tag lists, kept apart
/// from the release because they go to the shared tag dimensions.
pub struct Extracted {
    pub release: Release,
    pub languages: Vec<String>,
    pub companies: Vec<String>,
    pub genres: Vec<String>,
}

/// The mathematical value of an extraction result.
pub struct ExtractedView {
    pub release: ReleaseView,
    pub languages: Seq<Seq<char>>,
    pub companies: Seq<Seq<char>>,
    pub genres: Seq<Seq<char>>,
}

impl View for Extracted {
    type V = ExtractedView;

    open spec fn view(&self) -> ExtractedView {
        ExtractedView {
            release: self.release@,
            languages: self.languages.deep_view(),
            companies: self.companies.deep_view(),
            genres: self.genres.deep_view(),
        }
    }
}

/// Why extraction yields no release.
#[derive(PartialEq, Eq, Structural, Debug)]
pub enum ExtractError {
    /// The primary content block is absent.
    MissingContent,
    /// No title could be located.
    MissingTitle,
    /// No canonical link could be located.
    MissingLink,
    /// No publish instant could be located.
    MissingPublished,
    /// A publish instant was present but could not be read.
    UnparsableDate,
}

} // verus!
