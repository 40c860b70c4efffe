//! Which thumbnails are loaded, loading, waiting to be shown or failed, and
//! how image bytes become pixels.
use vstd::prelude::*;

use crate::seen::SeenIds;

verus! {

/// An image decoded to RGBA pixels, four bytes per pixel, row by row.
#[derive(Debug)]
pub struct DecodedImage {
    pub width: u32,
    pub height: u32,
    pub rgba: Vec<u8>,
}

/// The RGBA image that `image::load_from_memory` decodes from some bytes
/// (`None` when it cannot).
pub uninterp spec fn decoded_rgba(bytes: Seq<u8>) -> Option<(u32, u32, Seq<u8>)>;

/// Calls `image::load_from_memory` and converts the image to RGBA bytes.
#[verifier::external_body]
fn decode_rgba(bytes: &[u8]) -> (r: Option<DecodedImage>)
    ensures
        match r {
            Some(d) => decoded_rgba(bytes@) == Some((d.width, d.height, d.rgba@)),
            None => decoded_rgba(bytes@) is None,
        },
{
    match image::load_from_memory(bytes) {
        Ok(img) => {
            let rgba = img.to_rgba8();
            Some(DecodedImage { width: rgba.width(), height: rgba.height(), rgba: rgba.into_raw() })
        },
        Err(_) => None,
    }
}

/// The pixels of a thumbnail file's bytes.
pub fn decode_thumbnail(bytes: &[u8]) -> (r: Option<DecodedImage>)
    ensures
        match r {
            Some(d) => decoded_rgba(bytes@) == Some((d.width, d.height, d.rgba@)),
            None => decoded_rgba(bytes@) is None,
        },
{
    decode_rgba(bytes)
}

/// The thumbnails known by vehicle id: shown, decoded but not yet shown,
/// loading, or failed.
#[derive(Debug)]
pub struct ThumbnailTracker {
    shown: SeenIds,
    pending: SeenIds,
    loading: SeenIds,
    failed: SeenIds,
}

impl ThumbnailTracker {
    /// Ids whose thumbnail is shown.
    pub closed spec fn spec_shown(self) -> Set<Seq<char>> {
        self.shown.set()
    }

    /// Ids whose thumbnail is decoded but not yet shown.
    pub closed spec fn spec_pending(self) -> Set<Seq<char>> {
        self.pending.set()
    }

    /// Ids whose thumbnail is loading.
    pub closed spec fn spec_loading(self) -> Set<Seq<char>> {
        self.loading.set()
    }

    /// Ids whose thumbnail failed to load.
    pub closed spec fn spec_failed(self) -> Set<Seq<char>> {
        self.failed.set()
    }

    /// Nothing known yet.
    pub fn new() -> (r: ThumbnailTracker)
        ensures
            r.spec_shown() == Set::<Seq<char>>::empty(),
            r.spec_pending() == Set::<Seq<char>>::empty(),
            r.spec_loading() == Set::<Seq<char>>::empty(),
            r.spec_failed() == Set::<Seq<char>>::empty(),
    {
        ThumbnailTracker { shown: SeenIds::new(), pending: SeenIds::new(), loading: SeenIds::new(), failed: SeenIds::new() }
    }

    /// Whether a thumbnail must be loaded for `id`, and if so marks it
    /// loading: only when it is neither shown, pending, loading nor failed.
    pub fn queue_load(&mut self, id: &str) -> (r: bool)
        ensures
            r == !(old(self).spec_shown().contains(id@) || old(self).spec_pending().contains(id@)
                || old(self).spec_loading().contains(id@) || old(self).spec_failed().contains(id@)),
            final(self).spec_loading() == if r {
                old(self).spec_loading().insert(id@)
            } else {
                old(self).spec_loading()
            },
            final(self).spec_shown() == old(self).spec_shown(),
            final(self).spec_pending() == old(self).spec_pending(),
            final(self).spec_failed() == old(self).spec_failed(),
    {
        if self.shown.contains(id) || self.pending.contains(id) || self.loading.contains(id) || self.failed.contains(id) {
            return false;
        }
        self.loading.insert(id.to_owned());
        true
    }

    /// Records that loading `id` ended: decoded (`ok`) or failed.
    pub fn poll(&mut self, id: &str, ok: bool)
        ensures
            final(self).spec_loading() == old(self).spec_loading().remove(id@),
            final(self).spec_pending() == if ok {
                old(self).spec_pending().insert(id@)
            } else {
                old(self).spec_pending()
            },
            final(self).spec_failed() == if ok {
                old(self).spec_failed()
            } else {
                old(self).spec_failed().insert(id@)
            },
            final(self).spec_shown() == old(self).spec_shown(),
    {
        self.loading.remove(id);
        if ok {
            self.pending.insert(id.to_owned());
        } else {
            self.failed.insert(id.to_owned());
        }
    }

    /// Hands out the decoded thumbnails to show, which become shown.
    pub fn upload_pending(&mut self) -> (r: Vec<String>)
        ensures
            crate::text::views(r@).to_set() == old(self).spec_pending(),
            final(self).spec_pending() == Set::<Seq<char>>::empty(),
            final(self).spec_shown() == old(self).spec_shown().union(old(self).spec_pending()),
            final(self).spec_loading() == old(self).spec_loading(),
            final(self).spec_failed() == old(self).spec_failed(),
    {
        let ids = self.pending.drain();
        let ghost base = self.shown.set();
        let ghost vs = crate::text::views(ids@);
        let mut i: usize = 0;
        while i < ids.len()
            invariant
                i <= ids@.len(),
                vs == crate::text::views(ids@),
                self.shown.set() == base.union(vs.take(i as int).to_set()),
                self.pending.set() == Set::<Seq<char>>::empty(),
                self.loading.set() == old(self).spec_loading(),
                self.failed.set() == old(self).spec_failed(),
            decreases ids@.len() - i,
        {
            proof {
                assert(vs.take(i + 1) =~= vs.take(i as int).push(vs[i as int]));
                vs.take(i as int).lemma_push_to_set_commute(vs[i as int]);
                assert(vs[i as int] == ids@[i as int]@);
            }
            self.shown.insert(ids[i].clone());
            assert(self.shown.set() =~= base.union(vs.take(i + 1).to_set()));
            i = i + 1;
        }
        assert(vs.take(ids@.len() as int) =~= vs);
        ids
    }

    /// Whether the thumbnail of `id` is shown.
    pub fn get(&self, id: &str) -> (r: bool)
        ensures
            r == self.spec_shown().contains(id@),
    {
        self.shown.contains(id)
    }

    /// Whether the thumbnail of `id` is loading.
    pub fn is_loading(&self, id: &str) -> (r: bool)
        ensures
            r == self.spec_loading().contains(id@),
    {
        self.loading.contains(id)
    }

    /// Whether any thumbnail is loading.
    pub fn has_pending(&self) -> (r: bool)
        ensures
            r == (self.spec_loading() != Set::<Seq<char>>::empty()),
    {
        !self.loading.is_empty()
    }

    /// Forgets every thumbnail.
    pub fn clear(&mut self)
        ensures
            final(self).spec_shown() == Set::<Seq<char>>::empty(),
            final(self).spec_pending() == Set::<Seq<char>>::empty(),
            final(self).spec_loading() == Set::<Seq<char>>::empty(),
            final(self).spec_failed() == Set::<Seq<char>>::empty(),
    {
        self.shown = SeenIds::new();
        self.pending = SeenIds::new();
        self.loading = SeenIds::new();
        self.failed = SeenIds::new();
    }
}

} // verus!
