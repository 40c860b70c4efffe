//! Where a vehicle config lives (a file on disk, or an entry of a mod zip),
//! where its editable copy goes, and how its thumbnail is chosen.
use vstd::prelude::*;
use vstd::string::StringSliceAdditionalSpecFns;

use crate::digest::{checksum_bytes, hex_lower, sha256_of, utf8_bytes};
use crate::paths::{file_name, file_name_of, join, join_path, parent, parent_of};
use crate::settings::opt_view;
use crate::text::{
    concat, eq_ci, eq_ignore_case, has_char, has_prefix, has_suffix, lower, replace_char,
    replace_char_str, seq_lt, skip_str, starts_with, str_eq, str_lt, to_lower, ends_with, views,
    vec_contains_str,
};

verus! {

/// Where a vehicle `.pc` config lives.
#[derive(Debug)]
pub enum VehicleLocation {
    /// A file on disk.
    Local { config_path: String },
    /// An entry of a zip archive; `cached_path` is the extracted copy used
    /// for editing, once there is one.
    Zip { archive_path: String, pc_entry: String, cached_path: Option<String> },
}

/// Where a thumbnail image is read from.
#[derive(Debug)]
pub enum ThumbnailSource {
    File(String),
    Zip { archive_path: String, entry: String },
}

/// What must happen before a config can be edited on disk.
#[derive(Debug)]
pub enum LocalPathStep {
    /// The config can be edited at this path.
    Ready(String),
    /// The entry must first be extracted from the archive.
    Extract { archive_path: String, entry: String },
}

/// What writing an edited copy back to its origin takes.
#[derive(Debug)]
pub enum WriteBackStep {
    /// The edited file is the config itself.
    Nothing,
    /// Copy the edited file over the config.
    Copy { from: String, to: String },
    /// Replace the archive entry by the edited file.
    ReplaceEntry { archive_path: String, entry: String, from: String },
}

/// The mathematical form of a location.
pub enum LocationView {
    Local(Seq<char>),
    Zip(Seq<char>, Seq<char>, Option<Seq<char>>),
}

impl View for VehicleLocation {
    type V = LocationView;

    open spec fn view(&self) -> LocationView {
        match *self {
            VehicleLocation::Local { config_path } => LocationView::Local(config_path@),
            VehicleLocation::Zip { archive_path, pc_entry, cached_path } => LocationView::Zip(
                archive_path@,
                pc_entry@,
                opt_view(cached_path),
            ),
        }
    }
}

/// The mathematical form of a thumbnail source.
pub enum ThumbView {
    File(Seq<char>),
    Zip(Seq<char>, Seq<char>),
}

impl View for ThumbnailSource {
    type V = ThumbView;

    open spec fn view(&self) -> ThumbView {
        match *self {
            ThumbnailSource::File(p) => ThumbView::File(p@),
            ThumbnailSource::Zip { archive_path, entry } => ThumbView::Zip(archive_path@, entry@),
        }
    }
}

/// The view of an optional thumbnail.
pub open spec fn thumb_view(t: Option<ThumbnailSource>) -> Option<ThumbView> {
    match t {
        Some(x) => Some(x@),
        None => None,
    }
}

impl VehicleLocation {
    /// A copy of the location.
    pub fn copy(&self) -> (r: VehicleLocation)
        ensures
            r@ == self@,
    {
        match self {
            VehicleLocation::Local { config_path } => VehicleLocation::Local { config_path: config_path.clone() },
            VehicleLocation::Zip { archive_path, pc_entry, cached_path } => VehicleLocation::Zip {
                archive_path: archive_path.clone(),
                pc_entry: pc_entry.clone(),
                cached_path: match cached_path {
                    Some(c) => Some(c.clone()),
                    None => None,
                },
            },
        }
    }
}

impl ThumbnailSource {
    /// A copy of the source.
    pub fn copy(&self) -> (r: ThumbnailSource)
        ensures
            r@ == self@,
    {
        match self {
            ThumbnailSource::File(p) => ThumbnailSource::File(p.clone()),
            ThumbnailSource::Zip { archive_path, entry } => ThumbnailSource::Zip {
                archive_path: archive_path.clone(),
                entry: entry.clone(),
            },
        }
    }
}

impl VehicleLocation {
    /// The config path on disk, when there is one.
    pub fn config_path(&self) -> (r: Option<&String>)
        ensures
            match *self {
                VehicleLocation::Local { config_path } => r == Some(&config_path),
                VehicleLocation::Zip { cached_path, .. } => match cached_path {
                    Some(p) => r == Some(&p),
                    None => r is None,
                },
            },
    {
        match self {
            VehicleLocation::Local { config_path } => Some(config_path),
            VehicleLocation::Zip { cached_path, .. } => match cached_path {
                Some(p) => Some(p),
                None => None,
            },
        }
    }

    /// How the location is shown: the path, or `archive!entry`.
    pub fn display_label(&self) -> (r: String)
        ensures
            r@ == match *self {
                VehicleLocation::Local { config_path } => config_path@,
                VehicleLocation::Zip { archive_path, pc_entry, .. } => archive_path@ + seq!['!']
                    + pc_entry@,
            },
    {
        match self {
            VehicleLocation::Local { config_path } => config_path.clone(),
            VehicleLocation::Zip { archive_path, pc_entry, .. } => {
                let mut r = archive_path.clone();
                r.push('!');
                r.append(pc_entry.as_str());
                r
            },
        }
    }

    /// What it takes to have an editable file: a local config is ready, and
    /// so is an extracted copy that still exists (`cached_exists`); otherwise
    /// the entry is extracted.
    pub fn ensure_local_path(&self, cached_exists: bool) -> (r: LocalPathStep)
        ensures
            match *self {
                VehicleLocation::Local { config_path } => r matches LocalPathStep::Ready(q) && q@
                    == config_path@,
                VehicleLocation::Zip { archive_path, pc_entry, cached_path } => match cached_path {
                    Some(p) => if cached_exists {
                        r matches LocalPathStep::Ready(q) && q@ == p@
                    } else {
                        r matches LocalPathStep::Extract { archive_path: a, entry: e } && a@
                            == archive_path@ && e@ == pc_entry@
                    },
                    None => r matches LocalPathStep::Extract { archive_path: a, entry: e } && a@
                        == archive_path@ && e@ == pc_entry@,
                },
            },
    {
        match self {
            VehicleLocation::Local { config_path } => LocalPathStep::Ready(config_path.clone()),
            VehicleLocation::Zip { archive_path, pc_entry, cached_path } => {
                match cached_path {
                    Some(p) => {
                        if cached_exists {
                            return LocalPathStep::Ready(p.clone());
                        }
                    },
                    None => {},
                }
                LocalPathStep::Extract { archive_path: archive_path.clone(), entry: pc_entry.clone() }
            },
        }
    }

    /// Records the extracted copy of a zip entry.
    pub fn set_cached_path(&mut self, path: String)
        ensures
            match *old(self) {
                VehicleLocation::Local { config_path } => *final(self) == (VehicleLocation::Local {
                    config_path,
                }),
                VehicleLocation::Zip { archive_path, pc_entry, .. } => *final(self)
                    == (VehicleLocation::Zip { archive_path, pc_entry, cached_path: Some(path) }),
            },
    {
        match self {
            VehicleLocation::Local { .. } => {},
            VehicleLocation::Zip { cached_path, .. } => {
                *cached_path = Some(path);
            },
        }
    }

    /// What writing the edited file at `local_path` back takes: nothing when
    /// it is the config itself, a copy for another local file, the
    /// replacement of the archive entry for a zip. After a zip entry was
    /// replaced, [`VehicleLocation::set_cached_path`] records `local_path`.
    pub fn write_back(&self, local_path: &str) -> (r: WriteBackStep)
        ensures
            match *self {
                VehicleLocation::Local { config_path } => if config_path@ == local_path@ {
                    r is Nothing
                } else {
                    r matches WriteBackStep::Copy { from, to } && from@ == local_path@ && to@
                        == config_path@
                },
                VehicleLocation::Zip { archive_path, pc_entry, .. } => r matches WriteBackStep::ReplaceEntry {
                    archive_path: a,
                    entry: e,
                    from,
                } && a@ == archive_path@ && e@ == pc_entry@ && from@ == local_path@,
            },
    {
        match self {
            VehicleLocation::Local { config_path } => {
                if str_eq(config_path.as_str(), local_path) {
                    WriteBackStep::Nothing
                } else {
                    WriteBackStep::Copy { from: local_path.to_owned(), to: config_path.clone() }
                }
            },
            VehicleLocation::Zip { archive_path, pc_entry, .. } => WriteBackStep::ReplaceEntry {
                archive_path: archive_path.clone(),
                entry: pc_entry.clone(),
                from: local_path.to_owned(),
            },
        }
    }
}

/// The cache key of an archive entry.
pub fn cache_key(archive: &str, entry: &str) -> (r: String)
    ensures
        r@ == hex_lower(sha256_of(archive.spec_bytes() + entry.spec_bytes())),
{
    let mut bytes = utf8_bytes(archive);
    let tail = utf8_bytes(entry);
    let ghost head = bytes@;
    let mut i: usize = 0;
    while i < tail.len()
        invariant
            i <= tail@.len(),
            bytes@ == head + tail@.take(i as int),
        decreases tail@.len() - i,
    {
        bytes.push(tail[i]);
        i = i + 1;
        assert(bytes@ =~= head + tail@.take(i as int));
    }
    assert(tail@.take(tail@.len() as int) =~= tail@);
    checksum_bytes(bytes.as_slice())
}

/// Where an archive entry is extracted: `<cache>/<key>/<entry's file name>`,
/// `config.pc` when the entry has no file name.
pub fn extract_target(cache_root: &str, archive: &str, entry: &str) -> (r: String)
    ensures
        r@ == join(
            join(cache_root@, hex_lower(sha256_of(archive.spec_bytes() + entry.spec_bytes()))),
            match file_name(entry@) {
                Some(n) => n,
                None => "config.pc"@,
            },
        ),
{
    let key = cache_key(archive, entry);
    let dir = join_path(cache_root, key.as_str());
    match file_name_of(entry) {
        Some(n) => join_path(dir.as_str(), n.as_str()),
        None => join_path(dir.as_str(), "config.pc"),
    }
}

// ---------------------------------------------------------------------------
// Thumbnails
// ---------------------------------------------------------------------------

/// The image names tried for a config named `stem`, in order.
pub open spec fn candidate_names(stem: Seq<char>) -> Seq<Seq<char>> {
    seq![
        stem + ".jpg"@,
        stem + ".jpeg"@,
        stem + ".png"@,
        "default.jpg"@,
        "default.png"@,
        "preview.jpg"@,
        "preview.png"@,
        stem + ".webp"@,
    ]
}

/// Whether a file name is an image (`jpg`, `jpeg`, `png`, `webp`, any case).
pub open spec fn is_image(name: Seq<char>) -> bool {
    let l = lower(name);
    has_suffix(l, ".jpg"@) || has_suffix(l, ".jpeg"@) || has_suffix(l, ".png"@) || has_suffix(
        l,
        ".webp"@,
    )
}

/// The first of `cands` that `files` holds.
pub open spec fn first_present(cands: Seq<Seq<char>>, files: Seq<Seq<char>>) -> Option<Seq<char>>
    decreases cands.len(),
{
    if cands.len() == 0 {
        None
    } else if files.contains(cands[0]) {
        Some(cands[0])
    } else {
        first_present(cands.drop_first(), files)
    }
}

/// The first image name of a listing.
pub open spec fn first_image(names: Seq<Seq<char>>) -> Option<Seq<char>>
    decreases names.len(),
{
    if names.len() == 0 {
        None
    } else if is_image(names[0]) {
        Some(names[0])
    } else {
        first_image(names.drop_first())
    }
}

/// The least name of a list (in `str` order).
pub open spec fn least(names: Seq<Seq<char>>) -> Option<Seq<char>>
    decreases names.len(),
{
    if names.len() == 0 {
        None
    } else {
        match least(names.drop_last()) {
            None => Some(names.last()),
            Some(m) => if seq_lt(names.last(), m) {
                Some(names.last())
            } else {
                Some(m)
            },
        }
    }
}

/// The image names of a list, in order.
pub open spec fn images(names: Seq<Seq<char>>) -> Seq<Seq<char>>
    decreases names.len(),
{
    if names.len() == 0 {
        Seq::empty()
    } else if is_image(names.last()) {
        images(names.drop_last()).push(names.last())
    } else {
        images(names.drop_last())
    }
}

/// What a thumbnail search sees of a folder.
#[derive(Debug)]
pub struct FolderListing {
    /// Whether the folder exists as a directory.
    pub is_dir: bool,
    /// Names of the regular files in the folder, in listing order.
    pub files: Vec<String>,
    /// Names of the regular files in its `ui` subfolder, in listing order
    /// (none when there is no such folder).
    pub ui_files: Vec<String>,
}

/// The mathematical form of a folder listing.
pub struct ListingView {
    pub is_dir: bool,
    pub files: Seq<Seq<char>>,
    pub ui_files: Seq<Seq<char>>,
}

impl View for FolderListing {
    type V = ListingView;

    open spec fn view(&self) -> ListingView {
        ListingView { is_dir: self.is_dir, files: views(self.files@), ui_files: views(self.ui_files@) }
    }
}

/// The thumbnail of a listed folder (see [`thumbnail_in_folder`]).
pub open spec fn thumbnail_of(folder: Seq<char>, stem: Seq<char>, l: ListingView) -> Option<Seq<char>> {
    thumbnail_in_folder(folder, stem, l.is_dir, l.files, l.ui_files)
}

/// The thumbnail of a folder: the first candidate name present, else the
/// least image of `ui/`, else the first image listed.
pub open spec fn thumbnail_in_folder(
    folder: Seq<char>,
    stem: Seq<char>,
    is_dir: bool,
    files: Seq<Seq<char>>,
    ui_files: Seq<Seq<char>>,
) -> Option<Seq<char>> {
    if !is_dir {
        None
    } else {
        match first_present(candidate_names(stem), files) {
            Some(c) => Some(join(folder, c)),
            None => match least(images(ui_files)) {
                Some(u) => Some(join(join(folder, "ui"@), u)),
                None => match first_image(files) {
                    Some(f) => Some(join(folder, f)),
                    None => None,
                },
            },
        }
    }
}

proof fn lemma_first_present(cands: Seq<Seq<char>>, files: Seq<Seq<char>>)
    ensures
        first_present(cands, files) matches Some(x) ==> exists|c: int|
            0 <= c < cands.len() && #[trigger] cands[c] == x && files.contains(x) && forall|b: int|
                0 <= b < c ==> !files.contains(#[trigger] cands[b]),
        first_present(cands, files) is None ==> forall|c: int| 0 <= c < cands.len() ==> !files.contains(
            #[trigger] cands[c],
        ),
    decreases cands.len(),
{
    if cands.len() > 0 && !files.contains(cands[0]) {
        let t = cands.drop_first();
        lemma_first_present(t, files);
        if let Some(x) = first_present(t, files) {
            let c = choose|c: int|
                0 <= c < t.len() && #[trigger] t[c] == x && files.contains(x) && forall|b: int|
                    0 <= b < c ==> !files.contains(#[trigger] t[b]);
            assert(cands[c + 1] == x);
            assert forall|b: int| 0 <= b < c + 1 implies !files.contains(#[trigger] cands[b]) by {
                if b > 0 {
                    assert(cands[b] == t[b - 1]);
                }
            }
        } else {
            assert forall|c: int| 0 <= c < cands.len() implies !files.contains(#[trigger] cands[c]) by {
                if c > 0 {
                    assert(cands[c] == t[c - 1]);
                }
            }
        }
    } else if cands.len() > 0 {
        assert(cands[0] == first_present(cands, files)->0);
    }
}

proof fn lemma_first_image(names: Seq<Seq<char>>)
    ensures
        first_image(names) matches Some(f) ==> names.contains(f) && is_image(f),
        first_image(names) is None ==> forall|i: int| 0 <= i < names.len() ==> !is_image(#[trigger] names[i]),
    decreases names.len(),
{
    if names.len() > 0 {
        let t = names.drop_first();
        lemma_first_image(t);
        if is_image(names[0]) {
            assert(names.contains(names[0]));
        } else {
            if let Some(f) = first_image(t) {
                let i = choose|i: int| 0 <= i < t.len() && t[i] == f;
                assert(names[i + 1] == f);
            }
            assert forall|i: int| 0 <= i < names.len() && first_image(names) is None implies !is_image(#[trigger] names[i]) by {
                if i > 0 {
                    assert(names[i] == t[i - 1]);
                }
            }
        }
    }
}

proof fn lemma_least(names: Seq<Seq<char>>)
    ensures
        least(names) is None <==> names.len() == 0,
        least(names) matches Some(m) ==> names.contains(m) && forall|i: int|
            0 <= i < names.len() ==> !seq_lt(#[trigger] names[i], m),
    decreases names.len(),
{
    if names.len() > 0 {
        let d = names.drop_last();
        lemma_least(d);
        let m = least(names)->0;
        match least(d) {
            None => {
                assert(names[0] == names.last());
                crate::text::lemma_seq_lt_irreflexive(m);
                assert(names[names.len() - 1] == m);
            },
            Some(md) => {
                if seq_lt(names.last(), md) {
                    assert(names[names.len() - 1] == m);
                    assert forall|i: int| 0 <= i < names.len() implies !seq_lt(#[trigger] names[i], m) by {
                        if i < d.len() {
                            assert(names[i] == d[i]);
                            if seq_lt(names[i], m) {
                                crate::text::lemma_seq_lt_transitive(names[i], m, md);
                            }
                        } else {
                            crate::text::lemma_seq_lt_irreflexive(m);
                        }
                    }
                } else {
                    let k = choose|k: int| 0 <= k < d.len() && d[k] == md;
                    assert(names[k] == m);
                    assert forall|i: int| 0 <= i < names.len() implies !seq_lt(#[trigger] names[i], m) by {
                        if i < d.len() {
                            assert(names[i] == d[i]);
                        }
                    }
                }
            },
        }
    }
}

proof fn lemma_images_filter(names: Seq<Seq<char>>)
    ensures
        images(names) == names.filter(|n: Seq<char>| is_image(n)),
    decreases names.len(),
{
    reveal(Seq::filter);
    if names.len() > 0 {
        lemma_images_filter(names.drop_last());
    }
}

/// Where a folder's thumbnail comes from: none without the folder; else
/// the first of the candidate names (`<stem>.jpg`, `<stem>.jpeg`,
/// `<stem>.png`, `default.jpg`, `default.png`, `preview.jpg`,
/// `preview.png`, `<stem>.webp`) that is listed, none of the earlier ones
/// being listed; else, when `ui/` lists images, the least of them in
/// string order; else the first image the folder lists. So the config's own
/// `<stem>.jpg` always wins when present, and an image the folder or `ui/`
/// lists is always found.
pub proof fn law_thumbnail_in_folder(
    folder: Seq<char>,
    stem: Seq<char>,
    is_dir: bool,
    files: Seq<Seq<char>>,
    ui_files: Seq<Seq<char>>,
)
    ensures
        !is_dir ==> thumbnail_in_folder(folder, stem, is_dir, files, ui_files) is None,
        is_dir && files.contains(stem + ".jpg"@) ==> thumbnail_in_folder(folder, stem, is_dir, files, ui_files) == Some(
            join(folder, stem + ".jpg"@),
        ),
        is_dir && (exists|c: int| 0 <= c < candidate_names(stem).len() && files.contains(
            #[trigger] candidate_names(stem)[c],
        )) ==> exists|c: int|
            0 <= c < candidate_names(stem).len() && files.contains(#[trigger] candidate_names(stem)[c])
                && thumbnail_in_folder(folder, stem, is_dir, files, ui_files) == Some(
                join(folder, candidate_names(stem)[c]),
            ) && forall|b: int| 0 <= b < c ==> !files.contains(#[trigger] candidate_names(stem)[b]),
        is_dir && (forall|c: int| 0 <= c < candidate_names(stem).len() ==> !files.contains(
            #[trigger] candidate_names(stem)[c],
        )) && (exists|i: int| 0 <= i < ui_files.len() && is_image(#[trigger] ui_files[i])) ==> exists|u: Seq<char>|
            ui_files.contains(u) && is_image(u) && thumbnail_in_folder(folder, stem, is_dir, files, ui_files) == Some(
                join(join(folder, "ui"@), u),
            ) && forall|i: int| 0 <= i < ui_files.len() && is_image(#[trigger] ui_files[i]) ==> !seq_lt(ui_files[i], u),
        is_dir && (forall|c: int| 0 <= c < candidate_names(stem).len() ==> !files.contains(
            #[trigger] candidate_names(stem)[c],
        )) && (forall|i: int| 0 <= i < ui_files.len() ==> !is_image(#[trigger] ui_files[i])) ==> match first_image(files) {
            Some(f) => thumbnail_in_folder(folder, stem, is_dir, files, ui_files) == Some(join(folder, f)) && files.contains(f)
                && is_image(f),
            None => thumbnail_in_folder(folder, stem, is_dir, files, ui_files) is None,
        },
        is_dir && (exists|i: int| 0 <= i < files.len() && is_image(#[trigger] files[i])) ==> thumbnail_in_folder(
            folder,
            stem,
            is_dir,
            files,
            ui_files,
        ) is Some,
{
    let cands = candidate_names(stem);
    lemma_first_present(cands, files);
    lemma_first_image(files);
    lemma_images_filter(ui_files);
    let pred = |n: Seq<char>| is_image(n);
    crate::text::lemma_filter_members(ui_files, pred);
    let im = images(ui_files);
    lemma_least(im);
    if is_dir {
        if files.contains(stem + ".jpg"@) {
            assert(cands[0] == stem + ".jpg"@);
        }
        if first_present(cands, files) is None {
            if exists|i: int| 0 <= i < ui_files.len() && is_image(#[trigger] ui_files[i]) {
                let i = choose|i: int| 0 <= i < ui_files.len() && is_image(#[trigger] ui_files[i]);
                assert(ui_files.contains(ui_files[i]));
                assert(im.contains(ui_files[i]));
                let u = least(im)->0;
                assert(im.contains(u));
                assert forall|i: int| 0 <= i < ui_files.len() && is_image(#[trigger] ui_files[i]) implies !seq_lt(
                    ui_files[i],
                    u,
                ) by {
                    assert(ui_files.contains(ui_files[i]));
                    assert(im.contains(ui_files[i]));
                    let k = choose|k: int| 0 <= k < im.len() && im[k] == ui_files[i];
                    assert(!seq_lt(im[k], u));
                }
            } else {
                assert forall|n: Seq<char>| !im.contains(n) by {
                    if im.contains(n) {
                        let k = choose|k: int| 0 <= k < ui_files.len() && ui_files[k] == n;
                        assert(is_image(ui_files[k]));
                    }
                }
                if im.len() > 0 {
                    assert(im.contains(im[0]));
                }
            }
        }
    }
}

/// The image names tried for a config named `stem`.
pub fn thumbnail_candidate_names(stem: &str) -> (r: Vec<String>)
    ensures
        views(r@) == candidate_names(stem@),
{
    let mut r: Vec<String> = Vec::new();
    r.push(concat(stem, ".jpg"));
    r.push(concat(stem, ".jpeg"));
    r.push(concat(stem, ".png"));
    r.push("default.jpg".to_owned());
    r.push("default.png".to_owned());
    r.push("preview.jpg".to_owned());
    r.push("preview.png".to_owned());
    r.push(concat(stem, ".webp"));
    assert(views(r@) =~= candidate_names(stem@));
    r
}

/// Whether a file name is an image.
pub fn is_image_name(name: &str) -> (r: bool)
    ensures
        r == is_image(name@),
{
    let l = to_lower(name);
    ends_with(l.as_str(), ".jpg") || ends_with(l.as_str(), ".jpeg") || ends_with(l.as_str(), ".png")
        || ends_with(l.as_str(), ".webp")
}

/// Whether a path names an image file.
pub fn is_image_path(path: &str) -> (r: bool)
    ensures
        r == is_image(
            match file_name(path@) {
                Some(n) => n,
                None => Seq::empty(),
            },
        ),
{
    match file_name_of(path) {
        Some(n) => is_image_name(n.as_str()),
        None => {
            proof {
                reveal_strlit("");
            }
            assert(""@ =~= Seq::<char>::empty());
            is_image_name("")
        },
    }
}

fn first_present_exec(cands: &Vec<String>, files: &Vec<String>) -> (r: Option<String>)
    ensures
        opt_view(r) == first_present(views(cands@), views(files@)),
{
    let ghost cs = views(cands@);
    assert(cs.skip(0) =~= cs);
    let mut i: usize = 0;
    while i < cands.len()
        invariant
            i <= cands@.len(),
            cs == views(cands@),
            first_present(cs, views(files@)) == first_present(cs.skip(i as int), views(files@)),
        decreases cands@.len() - i,
    {
        assert(cs.skip(i as int)[0] == cands@[i as int]@);
        if vec_contains_str(files, cands[i].as_str()) {
            return Some(cands[i].clone());
        }
        assert(cs.skip(i as int).drop_first() =~= cs.skip(i + 1));
        i = i + 1;
    }
    None
}

fn first_image_exec(names: &Vec<String>) -> (r: Option<String>)
    ensures
        opt_view(r) == first_image(views(names@)),
{
    let ghost ns = views(names@);
    assert(ns.skip(0) =~= ns);
    let mut i: usize = 0;
    while i < names.len()
        invariant
            i <= names@.len(),
            ns == views(names@),
            first_image(ns) == first_image(ns.skip(i as int)),
        decreases names@.len() - i,
    {
        assert(ns.skip(i as int)[0] == names@[i as int]@);
        if is_image_name(names[i].as_str()) {
            return Some(names[i].clone());
        }
        assert(ns.skip(i as int).drop_first() =~= ns.skip(i + 1));
        i = i + 1;
    }
    None
}

fn least_exec(names: &Vec<String>, only_images: bool) -> (r: Option<String>)
    ensures
        opt_view(r) == if only_images {
            least(images(views(names@)))
        } else {
            least(views(names@))
        },
{
    let ghost ns = views(names@);
    let mut best: Option<String> = None;
    let mut i: usize = 0;
    while i < names.len()
        invariant
            i <= names@.len(),
            ns == views(names@),
            opt_view(best) == if only_images {
                least(images(ns.take(i as int)))
            } else {
                least(ns.take(i as int))
            },
        decreases names@.len() - i,
    {
        let ghost t = ns.take(i + 1);
        proof {
            assert(t.drop_last() =~= ns.take(i as int));
            assert(t.last() == names@[i as int]@);
        }
        if !only_images || is_image_name(names[i].as_str()) {
            let take = match &best {
                None => true,
                Some(b) => str_lt(names[i].as_str(), b.as_str()),
            };
            if take {
                best = Some(names[i].clone());
            }
            proof {
                if only_images {
                    assert(images(t) == images(ns.take(i as int)).push(t.last()));
                    assert(images(t).drop_last() =~= images(ns.take(i as int)));
                }
            }
        } else {
            proof {
                assert(images(t) == images(ns.take(i as int)));
            }
        }
        i = i + 1;
    }
    assert(ns.take(names@.len() as int) =~= ns);
    best
}

/// The thumbnail found in a folder (see [`thumbnail_in_folder`]), given what
/// the folder holds.
pub fn find_thumbnail_in_folder(folder: &str, stem: &str, listing: &FolderListing) -> (r: Option<
    String,
>)
    ensures
        opt_view(r) == thumbnail_in_folder(
            folder@,
            stem@,
            listing.is_dir,
            views(listing.files@),
            views(listing.ui_files@),
        ),
{
    if !listing.is_dir {
        return None;
    }
    let cands = thumbnail_candidate_names(stem);
    match first_present_exec(&cands, &listing.files) {
        Some(c) => {
            return Some(join_path(folder, c.as_str()));
        },
        None => {},
    }
    match least_exec(&listing.ui_files, true) {
        Some(u) => {
            let ui = join_path(folder, "ui");
            return Some(join_path(ui.as_str(), u.as_str()));
        },
        None => {},
    }
    match first_image_exec(&listing.files) {
        Some(f) => Some(join_path(folder, f.as_str())),
        None => None,
    }
}

// ---------------------------------------------------------------------------
// Thumbnails inside archives
// ---------------------------------------------------------------------------

/// The folder of an archive entry (`\` read as `/`), empty when it has none.
pub open spec fn entry_folder(entry: Seq<char>) -> Seq<char> {
    match parent(replace_char(entry, '\\', '/')) {
        Some(p) => replace_char(p, '\\', '/'),
        None => Seq::empty(),
    }
}

/// The text without its trailing `/` characters.
pub open spec fn trim_trailing_slashes(s: Seq<char>) -> Seq<char>
    decreases s.len(),
{
    if s.len() > 0 && s.last() == '/' {
        trim_trailing_slashes(s.drop_last())
    } else {
        s
    }
}

/// The prefix that the names of a folder's entries start with.
pub open spec fn zip_prefix(folder: Seq<char>) -> Seq<char> {
    if folder.len() == 0 {
        Seq::empty()
    } else {
        trim_trailing_slashes(folder) + seq!['/']
    }
}

/// Entry names with `\` read as `/`.
pub open spec fn normalized(names: Seq<Seq<char>>) -> Seq<Seq<char>> {
    names.map_values(|n: Seq<char>| replace_char(n, '\\', '/'))
}

/// An image directly in the folder of prefix `p`.
pub open spec fn is_top_image(n: Seq<char>, p: Seq<char>) -> bool {
    has_prefix(n, p) && !n.skip(p.len() as int).contains('/') && is_image(n.skip(p.len() as int))
}

/// An image below the `ui` subfolder of the folder of prefix `p`.
pub open spec fn is_ui_image(n: Seq<char>, p: Seq<char>) -> bool {
    has_prefix(n, p) && n.skip(p.len() as int).contains('/') && has_prefix(
        n.skip(p.len() as int),
        "ui/"@,
    ) && is_image(n.skip(p.len() as int))
}

/// The names that are top images (`ui == false`) or ui images (`ui == true`), in order.
pub open spec fn select_images(names: Seq<Seq<char>>, p: Seq<char>, ui: bool) -> Seq<Seq<char>>
    decreases names.len(),
{
    if names.len() == 0 {
        Seq::empty()
    } else {
        let r = select_images(names.drop_last(), p, ui);
        let n = names.last();
        if (ui && is_ui_image(n, p)) || (!ui && is_top_image(n, p)) {
            r.push(n)
        } else {
            r
        }
    }
}

/// The first name equal to `target` up to ASCII case.
pub open spec fn first_eq_ci(names: Seq<Seq<char>>, target: Seq<char>) -> Option<Seq<char>>
    decreases names.len(),
{
    if names.len() == 0 {
        None
    } else if eq_ci(names[0], target) {
        Some(names[0])
    } else {
        first_eq_ci(names.drop_first(), target)
    }
}

/// The name matching the first candidate that some name matches.
pub open spec fn first_candidate_match(cands: Seq<Seq<char>>, names: Seq<Seq<char>>, p: Seq<char>) -> Option<
    Seq<char>,
>
    decreases cands.len(),
{
    if cands.len() == 0 {
        None
    } else {
        match first_eq_ci(names, p + cands[0]) {
            Some(n) => Some(n),
            None => first_candidate_match(cands.drop_first(), names, p),
        }
    }
}

/// The file name of an entry, empty when it has none.
pub open spec fn base_name(n: Seq<char>) -> Seq<char> {
    match file_name(n) {
        Some(b) => b,
        None => Seq::empty(),
    }
}

/// The first name whose file name is `default.jpg` or `preview.jpg` (any case).
pub open spec fn first_default_preview(names: Seq<Seq<char>>) -> Option<Seq<char>>
    decreases names.len(),
{
    if names.len() == 0 {
        None
    } else if eq_ci(base_name(names[0]), "default.jpg"@) || eq_ci(base_name(names[0]), "preview.jpg"@) {
        Some(names[0])
    } else {
        first_default_preview(names.drop_first())
    }
}

/// The thumbnail entry of an archive whose entries are `raw`, for the
/// config `stem` in `folder`: a candidate name directly in the folder, else
/// the least image under its `ui/`, else a `default.jpg` or `preview.jpg`.
pub open spec fn zip_thumbnail(raw: Seq<Seq<char>>, folder: Seq<char>, stem: Seq<char>) -> Option<
    Seq<char>,
> {
    let names = normalized(raw);
    let p = zip_prefix(folder);
    let top = select_images(names, p, false);
    match first_candidate_match(candidate_names(stem), top, p) {
        Some(n) => Some(n),
        None => match least(select_images(names, p, true)) {
            Some(u) => Some(u),
            None => first_default_preview(top),
        },
    }
}

/// The folder of an archive entry.
pub fn zip_entry_folder(entry: &str) -> (r: String)
    ensures
        r@ == entry_folder(entry@),
{
    let norm = replace_char_str(entry, '\\', '/');
    match parent_of(norm.as_str()) {
        Some(p) => replace_char_str(p.as_str(), '\\', '/'),
        None => String::new(),
    }
}

fn trim_trailing_slashes_exec(s: &str) -> (r: String)
    ensures
        r@ == trim_trailing_slashes(s@),
{
    let v = crate::text::chars_of(s);
    let mut n: usize = v.len();
    assert(s@.take(n as int) =~= s@);
    while n > 0 && v[n - 1] == '/'
        invariant
            n <= v@.len(),
            v@ == s@,
            trim_trailing_slashes(s@) == trim_trailing_slashes(s@.take(n as int)),
        decreases n,
    {
        assert(s@.take(n as int).drop_last() =~= s@.take(n - 1));
        n = n - 1;
    }
    crate::text::take_str(s, n)
}

fn zip_prefix_exec(folder: &str) -> (r: String)
    ensures
        r@ == zip_prefix(folder@),
{
    if crate::text::is_empty_str(folder) {
        String::new()
    } else {
        let mut r = trim_trailing_slashes_exec(folder);
        r.push('/');
        r
    }
}

fn first_eq_ci_exec(names: &Vec<String>, target: &str) -> (r: Option<String>)
    ensures
        opt_view(r) == first_eq_ci(views(names@), target@),
{
    let ghost ns = views(names@);
    assert(ns.skip(0) =~= ns);
    let mut i: usize = 0;
    while i < names.len()
        invariant
            i <= names@.len(),
            ns == views(names@),
            first_eq_ci(ns, target@) == first_eq_ci(ns.skip(i as int), target@),
        decreases names@.len() - i,
    {
        assert(ns.skip(i as int)[0] == names@[i as int]@);
        if eq_ignore_case(names[i].as_str(), target) {
            return Some(names[i].clone());
        }
        assert(ns.skip(i as int).drop_first() =~= ns.skip(i + 1));
        i = i + 1;
    }
    None
}

fn first_default_preview_exec(names: &Vec<String>) -> (r: Option<String>)
    ensures
        opt_view(r) == first_default_preview(views(names@)),
{
    let ghost ns = views(names@);
    assert(ns.skip(0) =~= ns);
    let mut i: usize = 0;
    while i < names.len()
        invariant
            i <= names@.len(),
            ns == views(names@),
            first_default_preview(ns) == first_default_preview(ns.skip(i as int)),
        decreases names@.len() - i,
    {
        assert(ns.skip(i as int)[0] == names@[i as int]@);
        let base = match file_name_of(names[i].as_str()) {
            Some(b) => b,
            None => {
                proof {
                    reveal_strlit("");
                }
                assert(""@ =~= Seq::<char>::empty());
                "".to_owned()
            },
        };
        if eq_ignore_case(base.as_str(), "default.jpg") || eq_ignore_case(base.as_str(), "preview.jpg") {
            return Some(names[i].clone());
        }
        assert(ns.skip(i as int).drop_first() =~= ns.skip(i + 1));
        i = i + 1;
    }
    None
}

/// The thumbnail entry of an archive listing (see [`zip_thumbnail`]).
pub fn pick_thumbnail_from_zip_index(names: &Vec<String>, folder: &str, stem: &str) -> (r: Option<
    String,
>)
    ensures
        opt_view(r) == zip_thumbnail(views(names@), folder@, stem@),
{
    let prefix = zip_prefix_exec(folder);
    let plen = crate::text::char_len(prefix.as_str());
    let ghost p = prefix@;
    let ghost norm = normalized(views(names@));
    let mut ui: Vec<String> = Vec::new();
    let mut top: Vec<String> = Vec::new();
    let mut i: usize = 0;
    while i < names.len()
        invariant
            i <= names@.len(),
            p == zip_prefix(folder@),
            p == prefix@,
            plen == p.len(),
            norm == normalized(views(names@)),
            views(ui@) == select_images(norm.take(i as int), p, true),
            views(top@) == select_images(norm.take(i as int), p, false),
        decreases names@.len() - i,
    {
        let n = replace_char_str(names[i].as_str(), '\\', '/');
        let ghost t = norm.take(i + 1);
        proof {
            assert(t.drop_last() =~= norm.take(i as int));
            assert(t.last() == n@);
        }
        let ghost ui0 = views(ui@);
        let ghost top0 = views(top@);
        if starts_with(n.as_str(), prefix.as_str()) {
            let rel = skip_str(n.as_str(), plen);
            if has_char(rel.as_str(), '/') {
                if starts_with(rel.as_str(), "ui/") && is_image_name(rel.as_str()) {
                    ui.push(n);
                    assert(views(ui@) =~= ui0.push(t.last()));
                }
            } else if is_image_name(rel.as_str()) {
                top.push(n);
                assert(views(top@) =~= top0.push(t.last()));
            }
        }
        i = i + 1;
    }
    assert(norm.take(names@.len() as int) =~= norm);
    let cands = thumbnail_candidate_names(stem);
    let ghost cs = views(cands@);
    assert(cs.skip(0) =~= cs);
    let mut c: usize = 0;
    while c < cands.len()
        invariant
            c <= cands@.len(),
            cs == views(cands@),
            cs == candidate_names(stem@),
            p == prefix@,
            p == zip_prefix(folder@),
            norm == normalized(views(names@)),
            views(ui@) == select_images(norm, p, true),
            views(top@) == select_images(norm, p, false),
            first_candidate_match(cs, views(top@), p) == first_candidate_match(cs.skip(c as int), views(top@), p),
        decreases cands@.len() - c,
    {
        assert(cs.skip(c as int)[0] == cands@[c as int]@);
        let target = concat(prefix.as_str(), cands[c].as_str());
        match first_eq_ci_exec(&top, target.as_str()) {
            Some(m) => {
                assert(first_candidate_match(cs.skip(c as int), views(top@), p) == Some(m@));
                return Some(m);
            },
            None => {},
        }
        assert(cs.skip(c as int).drop_first() =~= cs.skip(c + 1));
        c = c + 1;
    }
    match least_exec(&ui, false) {
        Some(u) => Some(u),
        None => first_default_preview_exec(&top),
    }
}

// ---------------------------------------------------------------------------
// Choosing a config's thumbnail
// ---------------------------------------------------------------------------

/// The user-folder copy of a vehicle folder: `<user>/vehicles/<vehicle>`.
pub open spec fn user_vehicle_folder(user: Option<Seq<char>>, vehicle: Option<Seq<char>>) -> Option<
    Seq<char>,
> {
    match (user, vehicle) {
        (Some(u), Some(v)) => Some(join(join(u, "vehicles"@), v)),
        _ => None,
    }
}

/// The vehicle of a config file: its folder's name, else its parent's name.
pub open spec fn pc_vehicle_name(pc_path: Seq<char>, pc_folder: Seq<char>) -> Option<Seq<char>> {
    match file_name(pc_folder) {
        Some(n) => Some(n),
        None => match parent(pc_path) {
            Some(pp) => file_name(pp),
            None => None,
        },
    }
}

/// The vehicle of an archive entry: the name of its parent folder.
pub open spec fn entry_vehicle_name(pc_entry: Seq<char>) -> Option<Seq<char>> {
    match parent(pc_entry) {
        Some(pp) => file_name(pp),
        None => None,
    }
}

/// The thumbnail of a config file on disk: one in its own folder, else one
/// in the user copy of its vehicle folder.
pub open spec fn thumbnail_for_pc(
    pc_path: Seq<char>,
    pc_folder: Seq<char>,
    stem: Seq<char>,
    user: Option<Seq<char>>,
    folder: ListingView,
    fallback: ListingView,
) -> Option<ThumbView> {
    match thumbnail_of(pc_folder, stem, folder) {
        Some(p) => Some(ThumbView::File(p)),
        None => match user_vehicle_folder(user, pc_vehicle_name(pc_path, pc_folder)) {
            Some(f) => match thumbnail_of(f, stem, fallback) {
                Some(p) => Some(ThumbView::File(p)),
                None => None,
            },
            None => None,
        },
    }
}

/// The thumbnail of a config inside an archive: an image entry of the
/// archive, else one in the user copy of its vehicle folder.
pub open spec fn thumbnail_for_zip(
    archive_path: Seq<char>,
    pc_entry: Seq<char>,
    stem: Seq<char>,
    user: Option<Seq<char>>,
    names: Option<Seq<Seq<char>>>,
    fallback: ListingView,
) -> Option<ThumbView> {
    match (match names {
        Some(ns) => zip_thumbnail(ns, entry_folder(pc_entry), stem),
        None => None,
    }) {
        Some(e) => Some(ThumbView::Zip(archive_path, e)),
        None => match user_vehicle_folder(user, entry_vehicle_name(pc_entry)) {
            Some(f) => match thumbnail_of(f, stem, fallback) {
                Some(p) => Some(ThumbView::File(p)),
                None => None,
            },
            None => None,
        },
    }
}

/// The folder searched when a config file's own folder has no thumbnail.
pub fn pc_fallback_folder(pc_path: &str, pc_folder: &str, user_dir: Option<&str>) -> (r: Option<String>)
    ensures
        opt_view(r) == user_vehicle_folder(
            match user_dir {
                Some(u) => Some(u@),
                None => None,
            },
            pc_vehicle_name(pc_path@, pc_folder@),
        ),
{
    let user = match user_dir {
        Some(u) => u,
        None => {
            return None;
        },
    };
    let name = match file_name_of(pc_folder) {
        Some(n) => n,
        None => match parent_of(pc_path) {
            Some(pp) => match file_name_of(pp.as_str()) {
                Some(n) => n,
                None => {
                    return None;
                },
            },
            None => {
                return None;
            },
        },
    };
    let vehicles = join_path(user, "vehicles");
    Some(join_path(vehicles.as_str(), name.as_str()))
}

/// The folder searched when an archive holds no thumbnail for an entry.
pub fn zip_fallback_folder(pc_entry: &str, user_dir: Option<&str>) -> (r: Option<String>)
    ensures
        opt_view(r) == user_vehicle_folder(
            match user_dir {
                Some(u) => Some(u@),
                None => None,
            },
            entry_vehicle_name(pc_entry@),
        ),
{
    let user = match user_dir {
        Some(u) => u,
        None => {
            return None;
        },
    };
    match parent_of(pc_entry) {
        Some(pp) => match file_name_of(pp.as_str()) {
            Some(n) => {
                let vehicles = join_path(user, "vehicles");
                Some(join_path(vehicles.as_str(), n.as_str()))
            },
            None => None,
        },
        None => None,
    }
}

/// The thumbnail of a config file on disk: one in its folder (`folder`
/// lists it), else one in the user copy of its vehicle folder (`fallback`
/// lists the folder that [`pc_fallback_folder`] names).
pub fn find_thumbnail_for_pc(
    pc_path: &str,
    pc_folder: &str,
    stem: &str,
    user_dir: Option<&str>,
    folder: &FolderListing,
    fallback: &FolderListing,
) -> (r: Option<ThumbnailSource>)
    ensures
        thumb_view(r) == thumbnail_for_pc(
            pc_path@,
            pc_folder@,
            stem@,
            match user_dir {
                Some(u) => Some(u@),
                None => None,
            },
            folder@,
            fallback@,
        ),
{
    match find_thumbnail_in_folder(pc_folder, stem, folder) {
        Some(p) => {
            return Some(ThumbnailSource::File(p));
        },
        None => {},
    }
    match pc_fallback_folder(pc_path, pc_folder, user_dir) {
        Some(f) => match find_thumbnail_in_folder(f.as_str(), stem, fallback) {
            Some(p) => Some(ThumbnailSource::File(p)),
            None => None,
        },
        None => None,
    }
}

/// The thumbnail of a config inside an archive: an image entry of the
/// archive (`names` lists its entries, `None` when it could not be read),
/// else one in the user copy of its vehicle folder (`fallback` lists the
/// folder that [`zip_fallback_folder`] names).
pub fn find_thumbnail_in_zip(
    archive_path: &str,
    pc_entry: &str,
    stem: &str,
    user_dir: Option<&str>,
    names: Option<&Vec<String>>,
    fallback: &FolderListing,
) -> (r: Option<ThumbnailSource>)
    ensures
        thumb_view(r) == thumbnail_for_zip(
            archive_path@,
            pc_entry@,
            stem@,
            match user_dir {
                Some(u) => Some(u@),
                None => None,
            },
            match names {
                Some(ns) => Some(views(ns@)),
                None => None,
            },
            fallback@,
        ),
{
    let folder = zip_entry_folder(pc_entry);
    match names {
        Some(ns) => match pick_thumbnail_from_zip_index(ns, folder.as_str(), stem) {
            Some(entry) => {
                return Some(ThumbnailSource::Zip { archive_path: archive_path.to_owned(), entry });
            },
            None => {},
        },
        None => {},
    }
    match zip_fallback_folder(pc_entry, user_dir) {
        Some(f) => match find_thumbnail_in_folder(f.as_str(), stem, fallback) {
            Some(p) => Some(ThumbnailSource::File(p)),
            None => None,
        },
        None => None,
    }
}

// ---------------------------------------------------------------------------
// Rewriting an archive
// ---------------------------------------------------------------------------

/// The entry names of an archive after one entry was replaced: the other
/// entries in their order, then the replaced one at the end, all with `\`
/// read as `/`.
pub open spec fn rewritten_names(names: Seq<Seq<char>>, entry: Seq<char>) -> Seq<Seq<char>>
    decreases names.len(),
{
    if names.len() == 0 {
        seq![replace_char(entry, '\\', '/')]
    } else {
        let r = rewritten_names(names.drop_last(), entry);
        let n = replace_char(names.last(), '\\', '/');
        if n == replace_char(entry, '\\', '/') {
            r
        } else {
            r.insert(r.len() - 1, n)
        }
    }
}

/// The entry names written when `entry` of an archive listing `names` is
/// replaced (see [`rewritten_names`]).
pub fn zip_rewrite_names(names: &Vec<String>, entry: &str) -> (r: Vec<String>)
    ensures
        views(r@) == rewritten_names(views(names@), entry@),
{
    let target = replace_char_str(entry, '\\', '/');
    let ghost ns = views(names@);
    let mut kept: Vec<String> = Vec::new();
    let mut i: usize = 0;
    while i < names.len()
        invariant
            i <= names@.len(),
            ns == views(names@),
            target@ == replace_char(entry@, '\\', '/'),
            views(kept@).push(target@) == rewritten_names(ns.take(i as int), entry@),
        decreases names@.len() - i,
    {
        let n = replace_char_str(names[i].as_str(), '\\', '/');
        let ghost t = ns.take(i + 1);
        let ghost k0 = views(kept@);
        proof {
            assert(t.drop_last() =~= ns.take(i as int));
            assert(t.last() == names@[i as int]@);
        }
        if !str_eq(n.as_str(), target.as_str()) {
            kept.push(n);
            proof {
                let r0 = k0.push(target@);
                assert(r0.insert(r0.len() - 1, n@) =~= views(kept@).push(target@));
            }
        }
        i = i + 1;
    }
    assert(ns.take(names@.len() as int) =~= ns);
    kept.push(target);
    kept
}

} // verus!
