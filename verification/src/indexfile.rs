//! The file the application index is kept in.
//!
//! The file, little-endian throughout:
//!
//! ```text
//! "APEXIDX1"
//! u32 blob count, then per blob: u16 width, u16 height, width*height*4 BGRA
//! u32 fallback blob, u32 folder blob            (all ones when absent)
//! u32 app count, then per app: u16 len + name, u16 len + app id, u32 blob
//! ```
//!
//! Bitmaps are stored once and referred to by number: many applications share
//! one image.
use std::sync::Arc;
use vstd::prelude::*;
use vstd::string::*;
use vstd::utf8::*;

use crate::appindex::{AppIndex, Application, Catalogue, IndexedApp};
use crate::offsets::{self, width};
use crate::plugin::{self, Bitmap, Icon};
use crate::text::{chars_of, same_bytes};

verus! {

/// "No icon" in the file.
pub const NO_BLOB: u32 = 0xFFFF_FFFF;

/// Bounds that keep a damaged file from asking for absurd amounts of memory.
pub const MAX_ICON_SIDE: u16 = 256;

pub const MAX_ENTRIES: u32 = 100_000;

/// Most bytes a name or an id takes in the file.
pub const MAX_NAME: usize = 65_535;

/// An application as the file has it, its icon by number.
#[verifier::ext_equal]
pub struct Entry {
    pub name: Seq<char>,
    pub app_id: Seq<char>,
    pub blob: u32,
}

/// The contents of a file.
#[verifier::ext_equal]
pub struct IndexFile {
    pub blobs: Seq<Bitmap>,
    pub fallback: u32,
    pub folder: u32,
    pub apps: Seq<Entry>,
}

pub open spec fn magic() -> Seq<u8> {
    seq![0x41u8, 0x50u8, 0x45u8, 0x58u8, 0x49u8, 0x44u8, 0x58u8, 0x31u8]
}

/// The low sixteen bits of `n`, low byte first.
pub open spec fn le16(n: int) -> Seq<u8> {
    seq![(n % 256) as u8, (n / 256 % 256) as u8]
}

/// The low thirty-two bits of `n`, low byte first.
pub open spec fn le32(n: int) -> Seq<u8> {
    seq![
        (n % 256) as u8,
        (n / 256 % 256) as u8,
        (n / 65536 % 256) as u8,
        (n / 16777216 % 256) as u8,
    ]
}

pub open spec fn blob_bytes(b: Bitmap) -> Seq<u8> {
    le16(b.width as int) + le16(b.height as int) + b.bgra
}

pub open spec fn name_bytes(s: Seq<char>) -> Seq<u8> {
    le16(encode_utf8(s).len() as int) + encode_utf8(s)
}

pub open spec fn entry_bytes(e: Entry) -> Seq<u8> {
    name_bytes(e.name) + name_bytes(e.app_id) + le32(e.blob as int)
}

pub open spec fn all_blob_bytes(s: Seq<Bitmap>) -> Seq<u8>
    decreases s.len(),
{
    if s.len() == 0 {
        Seq::empty()
    } else {
        all_blob_bytes(s.drop_last()) + blob_bytes(s.last())
    }
}

pub open spec fn all_entry_bytes(s: Seq<Entry>) -> Seq<u8>
    decreases s.len(),
{
    if s.len() == 0 {
        Seq::empty()
    } else {
        all_entry_bytes(s.drop_last()) + entry_bytes(s.last())
    }
}

impl IndexFile {
    /// The file, byte by byte.
    pub open spec fn bytes(self) -> Seq<u8> {
        magic() + le32(self.blobs.len() as int) + all_blob_bytes(self.blobs) + le32(
            self.fallback as int,
        ) + le32(self.folder as int) + le32(self.apps.len() as int) + all_entry_bytes(self.apps)
    }

    /// The file keeps to the format: bitmaps of a sane size that hold all
    /// their pixels, names that fit, and references to bitmaps that are there.
    pub open spec fn valid(self) -> bool {
        &&& self.blobs.len() <= MAX_ENTRIES
        &&& self.apps.len() <= MAX_ENTRIES
        &&& forall|i: int| 0 <= i < self.blobs.len() ==> sound_blob(#[trigger] self.blobs[i])
        &&& sound_ref(self.fallback, self.blobs.len())
        &&& sound_ref(self.folder, self.blobs.len())
        &&& forall|i: int|
            0 <= i < self.apps.len() ==> sound_entry(#[trigger] self.apps[i], self.blobs.len())
    }

    /// The bitmap a reference stands for.
    pub open spec fn bitmap(self, blob: u32) -> Option<Bitmap> {
        if blob == NO_BLOB {
            None
        } else {
            Some(self.blobs[blob as int])
        }
    }

    /// The index the file describes.
    pub open spec fn catalogue(self) -> Catalogue {
        Catalogue {
            apps: self.apps.map_values(
                |e: Entry|
                    Application {
                        name: e.name,
                        app_id: e.app_id,
                        icon: self.bitmap(e.blob),
                    },
            ),
            fallback: self.bitmap(self.fallback),
            folder: self.bitmap(self.folder),
        }
    }
}

pub open spec fn sound_blob(b: Bitmap) -> bool {
    &&& 1 <= b.width <= MAX_ICON_SIDE
    &&& 1 <= b.height <= MAX_ICON_SIDE
    &&& b.bgra.len() == b.width * b.height * 4
}

pub open spec fn sound_ref(blob: u32, blobs: nat) -> bool {
    blob == NO_BLOB || blob < blobs
}

pub open spec fn sound_entry(e: Entry, blobs: nat) -> bool {
    &&& encode_utf8(e.name).len() <= MAX_NAME
    &&& encode_utf8(e.app_id).len() <= MAX_NAME
    &&& sound_ref(e.blob, blobs)
}

// ---- what an index is written as ----------------------------------------------

/// Every icon of an index, in the order it is come by.
pub open spec fn icons_of(c: Catalogue) -> Seq<Option<Bitmap>> {
    c.apps.map_values(|a: Application| a.icon).push(c.fallback).push(c.folder)
}

/// The different bitmaps among `icons`, in order of first appearance.
pub open spec fn distinct(icons: Seq<Option<Bitmap>>) -> Seq<Bitmap>
    decreases icons.len(),
{
    if icons.len() == 0 {
        Seq::empty()
    } else {
        with_icon(distinct(icons.drop_last()), icons.last())
    }
}

/// `blobs` and one more icon, added if it is not there yet.
pub open spec fn with_icon(blobs: Seq<Bitmap>, icon: Option<Bitmap>) -> Seq<Bitmap> {
    match icon {
        Some(b) => if blobs.contains(b) {
            blobs
        } else {
            blobs.push(b)
        },
        None => blobs,
    }
}

/// The number a bitmap goes by, in the thirty-two bits the file has for it.
pub open spec fn blob_of(blobs: Seq<Bitmap>, icon: Option<Bitmap>) -> u32 {
    match icon {
        Some(b) => (blobs.index_of(b) % 0x1_0000_0000) as u32,
        None => NO_BLOB,
    }
}

/// The longest beginning of a name that fits in the file.
pub open spec fn kept(s: Seq<char>) -> Seq<char>
    decreases s.len(),
{
    if encode_utf8(s).len() <= MAX_NAME || s.len() == 0 {
        s
    } else {
        kept(s.drop_last())
    }
}

/// The file an index is written as.
pub open spec fn file_of(c: Catalogue) -> IndexFile {
    let blobs = distinct(icons_of(c));
    IndexFile {
        blobs,
        fallback: blob_of(blobs, c.fallback),
        folder: blob_of(blobs, c.folder),
        apps: c.apps.map_values(
            |a: Application|
                Entry {
                    name: kept(a.name),
                    app_id: kept(a.app_id),
                    blob: blob_of(blobs, a.icon),
                },
        ),
    }
}

// ---- writing --------------------------------------------------------------------

/// What the shared icons show.
pub open spec fn pictures(blobs: Seq<Arc<Icon>>) -> Seq<Bitmap> {
    blobs.map_values(|a: Arc<Icon>| a@)
}

pub open spec fn hashed(h: u64, bytes: Seq<u8>) -> u64
    decreases bytes.len(),
{
    if bytes.len() == 0 {
        h
    } else {
        (hashed(h, bytes.drop_last()) ^ bytes.last() as u64).wrapping_mul(0x0000_0100_0000_01b3)
    }
}

/// The hash of a bitmap: FNV-1a over its width, height and pixels.
pub open spec fn hash_of(b: Bitmap) -> u64 {
    hashed(0xcbf2_9ce4_8422_2325, le32(b.width as int) + le32(b.height as int) + b.bgra)
}

fn hash_on(h: u64, bytes: &[u8]) -> (r: u64)
    ensures
        r == hashed(h, bytes@),
{
    let mut r: u64 = h;
    let mut i: usize = 0;
    while i < bytes.len()
        invariant
            i <= bytes@.len(),
            r == hashed(h, bytes@.take(i as int)),
        decreases bytes@.len() - i,
    {
        assert(bytes@.take(i + 1).drop_last() == bytes@.take(i as int));
        r = (r ^ bytes[i] as u64).wrapping_mul(0x0000_0100_0000_01b3);
        i += 1;
    }
    assert(bytes@.take(bytes@.len() as int) == bytes@);
    r
}

proof fn lemma_hashed_concat(h: u64, a: Seq<u8>, b: Seq<u8>)
    ensures
        hashed(h, a + b) == hashed(hashed(h, a), b),
    decreases b.len(),
{
    if b.len() == 0 {
        assert(a + b == a);
    } else {
        lemma_hashed_concat(h, a, b.drop_last());
        assert((a + b).drop_last() == a + b.drop_last());
    }
}

/// A hash that tells most bitmaps apart at a glance.
pub fn fnv1a(icon: &Icon) -> (r: u64)
    ensures
        r == hash_of(icon@),
{
    let mut head: Vec<u8> = Vec::new();
    put_u32(&mut head, icon.width as u64);
    put_u32(&mut head, icon.height as u64);
    let h: u64 = hash_on(0xcbf2_9ce4_8422_2325, head.as_slice());
    proof {
        lemma_hashed_concat(0xcbf2_9ce4_8422_2325, head@, icon.bgra@);
    }
    hash_on(h, icon.bgra.as_slice())
}

/// Whether two icons show the same.
pub fn same_pixels(a: &Icon, b: &Icon) -> (r: bool)
    ensures
        r == (a@ == b@),
{
    a.width == b.width && a.height == b.height && same_bytes(a.bgra.as_slice(), b.bgra.as_slice())
}

/// Each bitmap gathered so far comes with its hash.
spec fn hashes_match(blobs: Seq<Arc<Icon>>, hashes: Seq<u64>) -> bool {
    &&& blobs.len() == hashes.len()
    &&& forall|k: int| 0 <= k < blobs.len() ==> #[trigger] hashes[k] == hash_of(blobs[k]@)
}

/// Where an icon stands among the bitmaps gathered so far. The hashes spare
/// most of the pixel comparisons.
fn find_blob(blobs: &Vec<Arc<Icon>>, hashes: &Vec<u64>, icon: &Icon) -> (r: Option<usize>)
    requires
        hashes_match(blobs@, hashes@),
    ensures
        match r {
            Some(k) => k < blobs@.len() && blobs@[k as int]@ == icon@,
            None => !pictures(blobs@).contains(icon@),
        },
{
    let h: u64 = fnv1a(icon);
    let mut k: usize = 0;
    while k < blobs.len()
        invariant
            k <= blobs@.len(),
            h == hash_of(icon@),
            hashes_match(blobs@, hashes@),
            forall|j: int| 0 <= j < k ==> (#[trigger] blobs@[j])@ != icon@,
        decreases blobs@.len() - k,
    {
        if hashes[k] == h && same_pixels(&blobs[k], icon) {
            return Some(k);
        }
        assert(hashes@[k as int] == hash_of(blobs@[k as int]@));
        k += 1;
    }
    proof {
        if pictures(blobs@).contains(icon@) {
            let j = choose|j: int| 0 <= j < pictures(blobs@).len() && pictures(blobs@)[j] == icon@;
            assert(blobs@[j]@ == icon@);
        }
    }
    None
}

/// Finds an icon among the bitmaps gathered so far, or adds it.
fn intern(blobs: &mut Vec<Arc<Icon>>, hashes: &mut Vec<u64>, icon: &Option<Arc<Icon>>) -> (r:
    Option<usize>)
    requires
        hashes_match(old(blobs)@, old(hashes)@),
    ensures
        pictures(final(blobs)@) == with_icon(pictures(old(blobs)@), plugin::shown(*icon)),
        hashes_match(final(blobs)@, final(hashes)@),
        old(blobs)@.is_prefix_of(final(blobs)@),
        names_icon(final(blobs)@, plugin::shown(*icon), r),
{
    let icon = match icon {
        Some(i) => i,
        None => {
            return None;
        },
    };
    if let Some(k) = find_blob(blobs, hashes, icon) {
        assert(pictures(blobs@)[k as int] == icon@);
        return Some(k);
    }
    let k: usize = blobs.len();
    blobs.push(plugin::share(icon));
    hashes.push(fnv1a(icon));
    proof {
        assert(pictures(blobs@) == pictures(old(blobs)@).push(icon@));
    }
    Some(k)
}

/// `r` is where `icon` stands among `blobs`.
spec fn names_icon(blobs: Seq<Arc<Icon>>, icon: Option<Bitmap>, r: Option<usize>) -> bool {
    match icon {
        Some(b) => r is Some && r->0 < blobs.len() && blobs[r->0 as int]@ == b,
        None => r is None,
    }
}

/// Appends the low sixteen bits of `v`.
fn put_u16(out: &mut Vec<u8>, v: u64)
    ensures
        final(out)@ == old(out)@ + le16(v as int),
{
    out.push((v % 256) as u8);
    out.push((v / 256 % 256) as u8);
    assert(out@ =~= old(out)@ + le16(v as int));
}

/// Appends the low thirty-two bits of `v`.
fn put_u32(out: &mut Vec<u8>, v: u64)
    ensures
        final(out)@ == old(out)@ + le32(v as int),
{
    out.push((v % 256) as u8);
    out.push((v / 256 % 256) as u8);
    out.push((v / 65536 % 256) as u8);
    out.push((v / 16777216 % 256) as u8);
    assert(out@ =~= old(out)@ + le32(v as int));
}

fn put_bytes(out: &mut Vec<u8>, bytes: &[u8])
    ensures
        final(out)@ == old(out)@ + bytes@,
{
    out.extend_from_slice(bytes);
    assert(out@ =~= old(out)@ + bytes@);
}

proof fn lemma_kept(s: Seq<char>, k: int)
    requires
        0 <= k <= s.len(),
        offsets::offset(s, k) <= MAX_NAME,
        k < s.len() ==> offsets::offset(s, k + 1) > MAX_NAME,
    ensures
        kept(s) == s.take(k),
    decreases s.len(),
{
    assert(s.take(s.len() as int) == s);
    if k < s.len() {
        offsets::lemma_offset_increases(s, k + 1, s.len() as int);
        let t = s.drop_last();
        assert(t.take(k) == s.take(k));
        if k < t.len() {
            assert(t.take(k + 1) == s.take(k + 1));
        }
        lemma_kept(t, k);
    }
}

proof fn lemma_kept_fits(s: Seq<char>)
    ensures
        encode_utf8(kept(s)).len() <= MAX_NAME,
        encode_utf8(s).len() <= MAX_NAME ==> kept(s) == s,
    decreases s.len(),
{
    if !(encode_utf8(s).len() <= MAX_NAME || s.len() == 0) {
        lemma_kept_fits(s.drop_last());
    } else {
        assert(s.len() == 0 ==> encode_utf8(s).len() == 0);
    }
}

/// Appends a length and the text in UTF-8, cut between characters where it
/// would not fit the length.
pub fn put_str(out: &mut Vec<u8>, s: &str)
    ensures
        final(out)@ == old(out)@ + name_bytes(kept(s@)),
{
    let chars = chars_of(s);
    let bytes = s.as_bytes();
    let mut end: usize = 0;
    let mut k: usize = 0;
    proof {
        offsets::lemma_offset_ends(s@);
    }
    while k < chars.len() && end + width(chars[k]) <= MAX_NAME
        invariant
            chars@ == s@,
            k <= chars@.len(),
            end == offsets::offset(s@, k as int),
            end <= MAX_NAME,
        decreases chars@.len() - k,
    {
        proof {
            offsets::lemma_offset_step(s@, k as int);
        }
        end += width(chars[k]);
        k += 1;
    }
    proof {
        if k < s@.len() {
            offsets::lemma_offset_step(s@, k as int);
        }
        lemma_kept(s@, k as int);
        offsets::lemma_encode_subrange(s@, 0, k as int);
        assert(s@.subrange(0, k as int) == s@.take(k as int));
    }
    put_u16(out, end as u64);
    put_bytes(out, vstd::slice::slice_subrange(bytes, 0, end));
    assert(out@ =~= old(out)@ + name_bytes(kept(s@)));
}

proof fn lemma_distinct_unique(icons: Seq<Option<Bitmap>>)
    ensures
        distinct(icons).no_duplicates(),
        distinct(icons).len() <= icons.len(),
    decreases icons.len(),
{
    if icons.len() > 0 {
        lemma_distinct_unique(icons.drop_last());
    }
}

/// The number written for a place among the bitmaps.
fn number(place: Option<usize>) -> (r: u32)
    ensures
        r == match place {
            Some(k) => (k as int % 0x1_0000_0000) as u32,
            None => NO_BLOB,
        },
{
    match place {
        Some(k) => (k as u64 % 0x1_0000_0000) as u32,
        None => NO_BLOB,
    }
}

proof fn lemma_number(blobs: Seq<Arc<Icon>>, icon: Option<Bitmap>, place: Option<usize>, n: u32)
    requires
        pictures(blobs).no_duplicates(),
        names_icon(blobs, icon, place),
        n == match place {
            Some(k) => (k as int % 0x1_0000_0000) as u32,
            None => NO_BLOB,
        },
    ensures
        n == blob_of(pictures(blobs), icon),
{
    if let Some(b) = icon {
        let p = pictures(blobs);
        let k = place->0 as int;
        assert(p[k] == b);
        assert(p.contains(b));
        let j = p.index_of(b);
        assert(p[j] == b);
        assert(j == k);
    }
}

/// The file for an index.
pub fn encode(index: &AppIndex) -> (out: Vec<u8>)
    ensures
        out@ == file_of(index@).bytes(),
{
    let ghost c = index@;
    let ghost icons = icons_of(c);
    let n: usize = index.apps.len();
    let mut blobs: Vec<Arc<Icon>> = Vec::new();
    let mut hashes: Vec<u64> = Vec::new();
    let mut places: Vec<Option<usize>> = Vec::new();
    let mut i: usize = 0;
    assert(pictures(blobs@) == distinct(icons.take(0)));
    while i < n
        invariant
            i <= n == index.apps@.len(),
            c == index@,
            icons == icons_of(c),
            hashes_match(blobs@, hashes@),
            pictures(blobs@) == distinct(icons.take(i as int)),
            places@.len() == i,
            forall|k: int|
                0 <= k < i ==> names_icon(blobs@, c.apps[k].icon, #[trigger] places@[k]),
        decreases n - i,
    {
        let ghost before = blobs@;
        let place = intern(&mut blobs, &mut hashes, &index.apps[i].icon);
        places.push(place);
        proof {
            assert(icons.take(i + 1).drop_last() == icons.take(i as int));
            assert(icons.take(i + 1).last() == c.apps[i as int].icon);
            assert forall|k: int| 0 <= k < i + 1 implies names_icon(
                blobs@,
                c.apps[k].icon,
                #[trigger] places@[k],
            ) by {
                if k < i {
                    assert(names_icon(before, c.apps[k].icon, places@[k]));
                    if let Some(j) = places@[k] {
                        assert(blobs@[j as int] == before[j as int]);
                    }
                }
            }
        }
        i += 1;
    }
    let ghost before = blobs@;
    let fallback = intern(&mut blobs, &mut hashes, &index.fallback);
    let ghost between = blobs@;
    let folder = intern(&mut blobs, &mut hashes, &index.folder);
    let ghost pics = pictures(blobs@);
    proof {
        assert(icons.take(n + 1).drop_last() == icons.take(n as int));
        assert(icons.take(n + 2).drop_last() == icons.take(n + 1));
        assert(icons.take(n + 2) == icons);
        assert(icons.take(n + 1).last() == c.fallback);
        assert(icons.take(n + 2).last() == c.folder);
        assert(pictures(between) == distinct(icons.take(n + 1)));
        assert(pics == distinct(icons));
        lemma_distinct_unique(icons);
        if let Some(j) = fallback {
            assert(blobs@[j as int] == between[j as int]);
        }
        assert forall|k: int| 0 <= k < n implies names_icon(
            blobs@,
            c.apps[k].icon,
            #[trigger] places@[k],
        ) by {
            assert(names_icon(before, c.apps[k].icon, places@[k]));
            if let Some(j) = places@[k] {
                assert(between[j as int] == before[j as int]);
                assert(blobs@[j as int] == between[j as int]);
            }
        }
    }
    let ghost file = file_of(c);
    let mut out: Vec<u8> = Vec::new();
    out.push(0x41);
    out.push(0x50);
    out.push(0x45);
    out.push(0x58);
    out.push(0x49);
    out.push(0x44);
    out.push(0x58);
    out.push(0x31);
    assert(out@ == magic());
    put_u32(&mut out, blobs.len() as u64);
    let ghost head = out@;
    let mut k: usize = 0;
    assert(out@ =~= head + all_blob_bytes(pics.take(0)));
    while k < blobs.len()
        invariant
            k <= blobs@.len(),
            pics == pictures(blobs@),
            out@ == head + all_blob_bytes(pics.take(k as int)),
        decreases blobs@.len() - k,
    {
        proof {
            assert(pics.take(k + 1).drop_last() == pics.take(k as int));
            assert(pics.take(k + 1).last() == blobs@[k as int]@);
        }
        put_u16(&mut out, blobs[k].width as u64);
        put_u16(&mut out, blobs[k].height as u64);
        put_bytes(&mut out, blobs[k].bgra.as_slice());
        assert(out@ =~= head + all_blob_bytes(pics.take(k + 1)));
        k += 1;
    }
    assert(pics.take(pics.len() as int) == pics);
    let fallback_number: u32 = number(fallback);
    let folder_number: u32 = number(folder);
    proof {
        lemma_number(blobs@, c.fallback, fallback, fallback_number);
        lemma_number(blobs@, c.folder, folder, folder_number);
    }
    put_u32(&mut out, fallback_number as u64);
    put_u32(&mut out, folder_number as u64);
    put_u32(&mut out, n as u64);
    let ghost head = out@;
    let mut i: usize = 0;
    assert(out@ =~= head + all_entry_bytes(file.apps.take(0)));
    while i < n
        invariant
            i <= n == index.apps@.len(),
            n == places@.len(),
            c == index@,
            file == file_of(c),
            pictures(blobs@) == file.blobs,
            file.blobs.no_duplicates(),
            forall|k: int|
                0 <= k < n ==> names_icon(blobs@, c.apps[k].icon, #[trigger] places@[k]),
            out@ == head + all_entry_bytes(file.apps.take(i as int)),
        decreases n - i,
    {
        let blob: u32 = number(places[i]);
        proof {
            assert(file.apps.take(i + 1).drop_last() == file.apps.take(i as int));
            assert(names_icon(blobs@, c.apps[i as int].icon, places@[i as int]));
            lemma_number(blobs@, c.apps[i as int].icon, places@[i as int], blob);
        }
        put_str(&mut out, index.apps[i].name.as_str());
        put_str(&mut out, index.apps[i].app_id.as_str());
        put_u32(&mut out, blob as u64);
        assert(out@ =~= head + all_entry_bytes(file.apps.take(i + 1)));
        i += 1;
    }
    assert(file.apps.take(n as int) == file.apps);
    assert(out@ =~= file.bytes());
    out
}

// ---- reading ----------------------------------------------------------------------

/// `bytes` begins with the valid file `f`. What follows it is ignored.
pub open spec fn reads_as(bytes: Seq<u8>, f: IndexFile) -> bool {
    f.valid() && f.bytes().is_prefix_of(bytes)
}

/// The number in the first two bytes, low byte first.
pub open spec fn num16(b: Seq<u8>) -> int {
    b[0] + 256 * b[1]
}

spec fn num32(b: Seq<u8>) -> int {
    b[0] + 256 * b[1] + 65536 * b[2] + 16777216 * b[3]
}

/// One bitmap off the front.
spec fn eat_blob(b: Seq<u8>) -> Option<(Bitmap, Seq<u8>)> {
    let (w, h) = (num16(b), num16(b.skip(2)));
    if b.len() < 4 || w < 1 || w > MAX_ICON_SIDE || h < 1 || h > MAX_ICON_SIDE || b.len() < 4 + w
        * h * 4 {
        None
    } else {
        Some(
            (
                Bitmap { width: w as u32, height: h as u32, bgra: b.subrange(4, 4 + w * h * 4) },
                b.skip(4 + w * h * 4),
            ),
        )
    }
}

/// `n` bitmaps off the front.
spec fn eat_blobs(b: Seq<u8>, n: nat) -> Option<(Seq<Bitmap>, Seq<u8>)>
    decreases n,
{
    if n == 0 {
        Some((Seq::empty(), b))
    } else {
        match eat_blobs(b, (n - 1) as nat) {
            Some((xs, rest)) => match eat_blob(rest) {
                Some((x, after)) => Some((xs.push(x), after)),
                None => None,
            },
            None => None,
        }
    }
}

/// One name off the front: a length, and that many bytes of UTF-8.
pub open spec fn eat_name(b: Seq<u8>) -> Option<(Seq<char>, Seq<u8>)> {
    let n = num16(b);
    if b.len() < 2 || b.len() < 2 + n || !valid_utf8(b.subrange(2, 2 + n)) {
        None
    } else {
        Some((decode_utf8(b.subrange(2, 2 + n)), b.skip(2 + n)))
    }
}

/// One application off the front.
spec fn eat_entry(b: Seq<u8>, blobs: nat) -> Option<(Entry, Seq<u8>)> {
    match eat_name(b) {
        Some((name, rest)) => match eat_name(rest) {
            Some((app_id, after)) => if after.len() < 4 || !sound_ref(
                num32(after) as u32,
                blobs,
            ) {
                None
            } else {
                Some((Entry { name, app_id, blob: num32(after) as u32 }, after.skip(4)))
            },
            None => None,
        },
        None => None,
    }
}

/// `n` applications off the front.
spec fn eat_entries(b: Seq<u8>, blobs: nat, n: nat) -> Option<(Seq<Entry>, Seq<u8>)>
    decreases n,
{
    if n == 0 {
        Some((Seq::empty(), b))
    } else {
        match eat_entries(b, blobs, (n - 1) as nat) {
            Some((xs, rest)) => match eat_entry(rest, blobs) {
                Some((x, after)) => Some((xs.push(x), after)),
                None => None,
            },
            None => None,
        }
    }
}

/// The references and applications that follow the bitmaps.
spec fn eat_tail(b: Seq<u8>, blobs: Seq<Bitmap>) -> Option<IndexFile> {
    let (fallback, folder, count) = (num32(b) as u32, num32(b.skip(4)) as u32, num32(b.skip(8)));
    if b.len() < 12 || !sound_ref(fallback, blobs.len()) || !sound_ref(folder, blobs.len()) || count
        > MAX_ENTRIES {
        None
    } else {
        match eat_entries(b.skip(12), blobs.len(), count as nat) {
            Some((apps, _)) => Some(IndexFile { blobs, fallback, folder, apps }),
            None => None,
        }
    }
}

spec fn eat_file(b: Seq<u8>) -> Option<IndexFile> {
    if b.len() < 12 || b.take(8) != magic() || num32(b.skip(8)) > MAX_ENTRIES {
        None
    } else {
        match eat_blobs(b.skip(12), num32(b.skip(8)) as nat) {
            Some((blobs, rest)) => eat_tail(rest, blobs),
            None => None,
        }
    }
}

proof fn lemma_num16(n: int, t: Seq<u8>)
    requires
        0 <= n < 65536,
    ensures
        num16(le16(n) + t) == n,
        (le16(n) + t).skip(2) == t,
        (le16(n) + t).len() == 2 + t.len(),
{
    assert((le16(n) + t).skip(2) =~= t);
}

proof fn lemma_num32(n: int, t: Seq<u8>)
    requires
        0 <= n <= u32::MAX,
    ensures
        num32(le32(n) + t) == n,
        (le32(n) + t).skip(4) == t,
        (le32(n) + t).len() == 4 + t.len(),
{
    assert((le32(n) + t).skip(4) =~= t);
}

proof fn lemma_le16(b: Seq<u8>)
    requires
        b.len() >= 2,
    ensures
        0 <= num16(b) < 65536,
        b == le16(num16(b)) + b.skip(2),
{
    assert(b =~= le16(num16(b)) + b.skip(2));
}

proof fn lemma_digits(b0: int, b1: int, b2: int, b3: int)
    requires
        0 <= b0 < 256,
        0 <= b1 < 256,
        0 <= b2 < 256,
        0 <= b3 < 256,
    ensures
        ({
            let n = b0 + 256 * b1 + 65536 * b2 + 16777216 * b3;
            &&& n % 256 == b0
            &&& n / 256 % 256 == b1
            &&& n / 65536 % 256 == b2
            &&& n / 16777216 % 256 == b3
        }),
{
    let n = b0 + 256 * b1 + 65536 * b2 + 16777216 * b3;
    let n1 = b1 + 256 * b2 + 65536 * b3;
    let n2 = b2 + 256 * b3;
    assert(n == b0 + 256 * n1);
    assert(n / 256 == n1);
    assert(n1 == b1 + 256 * n2);
    assert(n / 65536 == n2);
    assert(n / 16777216 == b3);
}

proof fn lemma_le32(b: Seq<u8>)
    requires
        b.len() >= 4,
    ensures
        0 <= num32(b) <= u32::MAX,
        b == le32(num32(b)) + b.skip(4),
{
    lemma_digits(b[0] as int, b[1] as int, b[2] as int, b[3] as int);
    let n = num32(b);
    assert(le32(n)[0] == b[0]);
    assert(le32(n)[1] == b[1]);
    assert(le32(n)[2] == b[2]);
    assert(le32(n)[3] == b[3]);
    assert(b =~= le32(n) + b.skip(4));
}

proof fn lemma_area(w: int, h: int)
    requires
        1 <= w <= MAX_ICON_SIDE,
        1 <= h <= MAX_ICON_SIDE,
    ensures
        4 <= w * h * 4 <= 262144,
{
    assert(1 <= w * h <= 65536) by (nonlinear_arith)
        requires
            1 <= w <= 256,
            1 <= h <= 256,
    ;
}

/// A bitmap that comes off the front is sound and was written there.
proof fn lemma_blob_off(b: Seq<u8>)
    ensures
        eat_blob(b) matches Some((x, rest)) ==> sound_blob(x) && b == blob_bytes(x) + rest,
{
    if let Some((x, rest)) = eat_blob(b) {
        lemma_le16(b);
        lemma_le16(b.skip(2));
        lemma_area(num16(b), num16(b.skip(2)));
        assert(b.skip(2).skip(2) =~= x.bgra + rest);
        assert(b =~= blob_bytes(x) + rest);
    }
}

/// A sound bitmap written at the front comes off.
proof fn lemma_blob_on(x: Bitmap, t: Seq<u8>)
    requires
        sound_blob(x),
    ensures
        eat_blob(blob_bytes(x) + t) == Some((x, t)),
{
    let (w, h) = (x.width as int, x.height as int);
    let b = blob_bytes(x) + t;
    lemma_area(w, h);
    assert(b =~= le16(w) + (le16(h) + (x.bgra + t)));
    lemma_num16(w, le16(h) + (x.bgra + t));
    lemma_num16(h, x.bgra + t);
    assert(b.subrange(4, 4 + w * h * 4) =~= x.bgra);
    assert(b.skip(4 + w * h * 4) =~= t);
}

proof fn lemma_blobs_off(b: Seq<u8>, n: nat)
    ensures
        eat_blobs(b, n) matches Some((xs, rest)) ==> {
            &&& xs.len() == n
            &&& forall|i: int| 0 <= i < n ==> sound_blob(#[trigger] xs[i])
            &&& b == all_blob_bytes(xs) + rest
        },
    decreases n,
{
    if n == 0 {
        assert(b =~= all_blob_bytes(Seq::empty()) + b);
    } else {
        lemma_blobs_off(b, (n - 1) as nat);
        if let Some((xs, rest)) = eat_blobs(b, (n - 1) as nat) {
            lemma_blob_off(rest);
            if let Some((x, after)) = eat_blob(rest) {
                assert(xs.push(x).drop_last() == xs);
                assert(b =~= all_blob_bytes(xs.push(x)) + after);
            }
        }
    }
}

proof fn lemma_blobs_on(xs: Seq<Bitmap>, t: Seq<u8>)
    requires
        forall|i: int| 0 <= i < xs.len() ==> sound_blob(#[trigger] xs[i]),
    ensures
        eat_blobs(all_blob_bytes(xs) + t, xs.len()) == Some((xs, t)),
    decreases xs.len(),
{
    if xs.len() == 0 {
        assert(all_blob_bytes(xs) + t =~= t);
        assert(xs =~= Seq::empty());
    } else {
        let rest = blob_bytes(xs.last()) + t;
        lemma_blobs_on(xs.drop_last(), rest);
        assert(all_blob_bytes(xs) + t =~= all_blob_bytes(xs.drop_last()) + rest);
        lemma_blob_on(xs.last(), t);
        assert(xs.drop_last().push(xs.last()) =~= xs);
    }
}

/// Once a bitmap fails to come off, more of them do not.
proof fn lemma_blobs_stuck(b: Seq<u8>, m: nat, n: nat)
    requires
        eat_blobs(b, m) is None,
        m <= n,
    ensures
        eat_blobs(b, n) is None,
    decreases n,
{
    if m < n {
        lemma_blobs_stuck(b, m, (n - 1) as nat);
    }
}

proof fn lemma_name_off(b: Seq<u8>)
    ensures
        eat_name(b) matches Some((x, rest)) ==> encode_utf8(x).len() <= MAX_NAME && b == name_bytes(
            x,
        ) + rest,
{
    if let Some((x, rest)) = eat_name(b) {
        lemma_le16(b);
        decode_utf8_encode_utf8(b.subrange(2, 2 + num16(b)));
        assert(b.skip(2) =~= b.subrange(2, 2 + num16(b)) + rest);
        assert(b =~= name_bytes(x) + rest);
    }
}

proof fn lemma_name_on(x: Seq<char>, t: Seq<u8>)
    requires
        encode_utf8(x).len() <= MAX_NAME,
    ensures
        eat_name(name_bytes(x) + t) == Some((x, t)),
{
    let e = encode_utf8(x);
    let b = name_bytes(x) + t;
    encode_utf8_valid_utf8(x);
    encode_utf8_decode_utf8(x);
    assert(b =~= le16(e.len() as int) + (e + t));
    lemma_num16(e.len() as int, e + t);
    assert(b.subrange(2, 2 + e.len() as int) =~= e);
    assert(b.skip(2 + e.len() as int) =~= t);
}

proof fn lemma_kept_is_longest(s: Seq<char>)
    ensures
        kept(s).is_prefix_of(s),
        kept(s).len() < s.len() ==> offsets::offset(s, kept(s).len() + 1int) > MAX_NAME,
    decreases s.len(),
{
    assert(s.take(s.len() as int) =~= s);
    if !(encode_utf8(s).len() <= MAX_NAME || s.len() == 0) {
        let t = s.drop_last();
        lemma_kept_is_longest(t);
        let k = kept(s).len() as int;
        assert(kept(s) =~= s.take(k));
        if k < t.len() {
            assert(t.take(k + 1) =~= s.take(k + 1));
        }
    }
}

/// A name reads back as its kept beginning, which is written as it stands in
/// the name, and what follows it stays to be read. The kept beginning is cut
/// between characters, is the longest that fits, and is the whole name where
/// that fits.
pub proof fn law_names_read_back(s: Seq<char>, rest: Seq<u8>)
    ensures
        ({
            let end = encode_utf8(kept(s)).len() as int;
            &&& kept(s).is_prefix_of(s)
            &&& end == offsets::offset(s, kept(s).len() as int)
            &&& end <= MAX_NAME
            &&& kept(s).len() < s.len() ==> offsets::offset(s, kept(s).len() + 1int) > MAX_NAME
            &&& encode_utf8(s).len() <= MAX_NAME ==> kept(s) == s
            &&& name_bytes(kept(s)) == le16(end) + encode_utf8(s).take(end)
            &&& eat_name(name_bytes(kept(s)) + rest) == Some((kept(s), rest))
        }),
{
    let k = kept(s).len() as int;
    lemma_kept_is_longest(s);
    lemma_kept_fits(s);
    lemma_name_on(kept(s), rest);
    assert(kept(s) =~= s.take(k));
    offsets::lemma_encode_concat(s.take(k), s.skip(k));
    assert(s =~= s.take(k) + s.skip(k));
    assert(encode_utf8(s).take(encode_utf8(kept(s)).len() as int) =~= encode_utf8(kept(s)));
}

proof fn lemma_entry_off(b: Seq<u8>, blobs: nat)
    ensures
        eat_entry(b, blobs) matches Some((x, rest)) ==> sound_entry(x, blobs) && b == entry_bytes(x)
            + rest,
{
    if let Some((x, rest)) = eat_entry(b, blobs) {
        lemma_name_off(b);
        let b1 = (eat_name(b)->0).1;
        lemma_name_off(b1);
        let b2 = (eat_name(b1)->0).1;
        lemma_le32(b2);
        assert(b =~= entry_bytes(x) + rest);
    }
}

proof fn lemma_entry_on(x: Entry, blobs: nat, t: Seq<u8>)
    requires
        sound_entry(x, blobs),
    ensures
        eat_entry(entry_bytes(x) + t, blobs) == Some((x, t)),
{
    let b2 = le32(x.blob as int) + t;
    let b1 = name_bytes(x.app_id) + b2;
    assert(entry_bytes(x) + t =~= name_bytes(x.name) + b1);
    lemma_name_on(x.name, b1);
    lemma_name_on(x.app_id, b2);
    lemma_num32(x.blob as int, t);
}

proof fn lemma_entries_off(b: Seq<u8>, blobs: nat, n: nat)
    ensures
        eat_entries(b, blobs, n) matches Some((xs, rest)) ==> {
            &&& xs.len() == n
            &&& forall|i: int| 0 <= i < n ==> sound_entry(#[trigger] xs[i], blobs)
            &&& b == all_entry_bytes(xs) + rest
        },
    decreases n,
{
    if n == 0 {
        assert(b =~= all_entry_bytes(Seq::empty()) + b);
    } else {
        lemma_entries_off(b, blobs, (n - 1) as nat);
        if let Some((xs, rest)) = eat_entries(b, blobs, (n - 1) as nat) {
            lemma_entry_off(rest, blobs);
            if let Some((x, after)) = eat_entry(rest, blobs) {
                assert(xs.push(x).drop_last() == xs);
                assert(b =~= all_entry_bytes(xs.push(x)) + after);
            }
        }
    }
}

proof fn lemma_entries_on(xs: Seq<Entry>, blobs: nat, t: Seq<u8>)
    requires
        forall|i: int| 0 <= i < xs.len() ==> sound_entry(#[trigger] xs[i], blobs),
    ensures
        eat_entries(all_entry_bytes(xs) + t, blobs, xs.len()) == Some((xs, t)),
    decreases xs.len(),
{
    if xs.len() == 0 {
        assert(all_entry_bytes(xs) + t =~= t);
        assert(xs =~= Seq::empty());
    } else {
        let rest = entry_bytes(xs.last()) + t;
        lemma_entries_on(xs.drop_last(), blobs, rest);
        assert(all_entry_bytes(xs) + t =~= all_entry_bytes(xs.drop_last()) + rest);
        lemma_entry_on(xs.last(), blobs, t);
        assert(xs.drop_last().push(xs.last()) =~= xs);
    }
}

proof fn lemma_entries_stuck(b: Seq<u8>, blobs: nat, m: nat, n: nat)
    requires
        eat_entries(b, blobs, m) is None,
        m <= n,
    ensures
        eat_entries(b, blobs, n) is None,
    decreases n,
{
    if m < n {
        lemma_entries_stuck(b, blobs, m, (n - 1) as nat);
    }
}

proof fn lemma_assoc(a: Seq<u8>, b: Seq<u8>, c: Seq<u8>)
    ensures
        (a + b) + c == a + (b + c),
{
    assert((a + b) + c =~= a + (b + c));
}

/// A file and what follows it, nested the way it is read.
proof fn lemma_layout(f: IndexFile, t: Seq<u8>)
    ensures
        f.bytes() + t == magic() + (le32(f.blobs.len() as int) + (all_blob_bytes(f.blobs) + (le32(
            f.fallback as int,
        ) + (le32(f.folder as int) + (le32(f.apps.len() as int) + (all_entry_bytes(f.apps) + t)))))),
{
    let (x1, x2, x3) = (magic(), le32(f.blobs.len() as int), all_blob_bytes(f.blobs));
    let (x4, x5, x6) = (le32(f.fallback as int), le32(f.folder as int), le32(f.apps.len() as int));
    let x7 = all_entry_bytes(f.apps);
    lemma_assoc(x1 + x2 + x3 + x4 + x5 + x6, x7, t);
    let t7 = x7 + t;
    lemma_assoc(x1 + x2 + x3 + x4 + x5, x6, t7);
    let t6 = x6 + t7;
    lemma_assoc(x1 + x2 + x3 + x4, x5, t6);
    let t5 = x5 + t6;
    lemma_assoc(x1 + x2 + x3, x4, t5);
    let t4 = x4 + t5;
    lemma_assoc(x1 + x2, x3, t4);
    lemma_assoc(x1, x2, x3 + t4);
}

/// Whatever comes off is a valid file that stands at the front.
proof fn lemma_file_off(b: Seq<u8>)
    ensures
        eat_file(b) matches Some(f) ==> reads_as(b, f),
{
    if let Some(f) = eat_file(b) {
        let b1 = b.skip(8);
        lemma_le32(b1);
        let n = num32(b1);
        assert(b1.skip(4) =~= b.skip(12));
        lemma_blobs_off(b.skip(12), n as nat);
        let (blobs, b2) = eat_blobs(b.skip(12), n as nat)->0;
        lemma_le32(b2);
        lemma_le32(b2.skip(4));
        lemma_le32(b2.skip(8));
        assert(b2.skip(4).skip(4) =~= b2.skip(8));
        assert(b2.skip(8).skip(4) =~= b2.skip(12));
        let m = num32(b2.skip(8));
        lemma_entries_off(b2.skip(12), blobs.len(), m as nat);
        let (apps, rest) = eat_entries(b2.skip(12), blobs.len(), m as nat)->0;
        assert(b2 == le32(f.fallback as int) + (le32(f.folder as int) + (le32(m) + (all_entry_bytes(
            apps,
        ) + rest))));
        assert(b == magic() + (le32(n) + (all_blob_bytes(blobs) + b2))) by {
            assert(b =~= b.take(8) + b.skip(8));
        }
        lemma_layout(f, rest);
        lemma_front(f.bytes(), rest);
    }
}

proof fn lemma_front(a: Seq<u8>, t: Seq<u8>)
    ensures
        a.is_prefix_of(a + t),
{
    assert(a =~= (a + t).subrange(0, a.len() as int));
}

proof fn lemma_cut(x: Seq<u8>, y: Seq<u8>, n: int)
    requires
        x.len() == n,
    ensures
        (x + y).take(n) == x,
        (x + y).skip(n) == y,
        (x + y).len() == n + y.len(),
{
    assert((x + y).take(n) =~= x);
    assert((x + y).skip(n) =~= y);
}

proof fn lemma_skip_skip(b: Seq<u8>, i: int, j: int)
    requires
        0 <= i,
        0 <= j,
        i + j <= b.len(),
    ensures
        b.skip(i).skip(j) == b.skip(i + j),
{
    assert(b.skip(i).skip(j) =~= b.skip(i + j));
}

proof fn lemma_prefix(a: Seq<u8>, b: Seq<u8>)
    requires
        a.is_prefix_of(b),
    ensures
        b == a + b.skip(a.len() as int),
{
    assert(b =~= a + b.skip(a.len() as int));
}

/// The references and applications of a valid file come off.
proof fn lemma_tail_on(f: IndexFile, t: Seq<u8>)
    requires
        f.valid(),
    ensures
        eat_tail(
            le32(f.fallback as int) + (le32(f.folder as int) + (le32(f.apps.len() as int) + (
            all_entry_bytes(f.apps) + t))),
            f.blobs,
        ) == Some(f),
{
    let b4 = all_entry_bytes(f.apps) + t;
    let b3 = le32(f.apps.len() as int) + b4;
    let b2 = le32(f.folder as int) + b3;
    let b1 = le32(f.fallback as int) + b2;
    lemma_num32(f.fallback as int, b2);
    lemma_num32(f.folder as int, b3);
    lemma_num32(f.apps.len() as int, b4);
    lemma_skip_skip(b1, 4, 4);
    lemma_skip_skip(b1, 8, 4);
    lemma_entries_on(f.apps, f.blobs.len(), t);
}

/// A valid file that stands at the front comes off.
proof fn lemma_file_on(b: Seq<u8>, f: IndexFile)
    requires
        reads_as(b, f),
    ensures
        eat_file(b) == Some(f),
{
    let t = b.skip(f.bytes().len() as int);
    let b1 = le32(f.fallback as int) + (le32(f.folder as int) + (le32(f.apps.len() as int) + (
    all_entry_bytes(f.apps) + t)));
    let b0 = all_blob_bytes(f.blobs) + b1;
    let bb = le32(f.blobs.len() as int) + b0;
    lemma_prefix(f.bytes(), b);
    lemma_layout(f, t);
    assert(b == magic() + bb);
    lemma_cut(magic(), bb, 8);
    lemma_num32(f.blobs.len() as int, b0);
    lemma_skip_skip(b, 8, 4);
    lemma_blobs_on(f.blobs, b1);
    lemma_tail_on(f, t);
}

/// `String::from_utf8`: the text, where the bytes are well-formed UTF-8.
#[verifier::external_body]
fn text_of(bytes: Vec<u8>) -> (r: Option<String>)
    ensures
        match r {
            Some(s) => valid_utf8(bytes@) && s@ == decode_utf8(bytes@),
            None => !valid_utf8(bytes@),
        },
{
    String::from_utf8(bytes).ok()
}

/// Reads bytes from front to back.
pub struct Reader<'a> {
    bytes: &'a [u8],
    pos: usize,
}

impl<'a> Reader<'a> {
    /// The reader stands within the bytes.
    pub closed spec fn wf(self) -> bool {
        self.pos <= self.bytes@.len()
    }

    /// What is still to be read.
    pub closed spec fn rest(self) -> Seq<u8> {
        self.bytes@.skip(self.pos as int)
    }

    /// A reader that starts at `pos`.
    pub fn new(bytes: &'a [u8], pos: usize) -> (r: Reader<'a>)
        requires
            pos <= bytes@.len(),
        ensures
            r.wf(),
            r.rest() == bytes@.skip(pos as int),
    {
        Reader { bytes, pos }
    }

    fn take(&mut self, n: usize) -> (r: Option<&'a [u8]>)
        requires
            old(self).wf(),
        ensures
            final(self).wf(),
            match r {
                Some(s) => {
                    &&& n <= old(self).rest().len()
                    &&& s@ == old(self).rest().take(n as int)
                    &&& final(self).rest() == old(self).rest().skip(n as int)
                },
                None => n > old(self).rest().len(),
            },
    {
        if n > self.bytes.len() - self.pos {
            return None;
        }
        let slice = vstd::slice::slice_subrange(self.bytes, self.pos, self.pos + n);
        self.pos = self.pos + n;
        proof {
            assert(slice@ =~= old(self).rest().take(n as int));
            assert(self.rest() =~= old(self).rest().skip(n as int));
        }
        Some(slice)
    }

    fn read_u16(&mut self) -> (r: Option<u16>)
        requires
            old(self).wf(),
        ensures
            final(self).wf(),
            match r {
                Some(v) => {
                    &&& old(self).rest().len() >= 2
                    &&& v == num16(old(self).rest())
                    &&& final(self).rest() == old(self).rest().skip(2)
                },
                None => old(self).rest().len() < 2,
            },
    {
        match self.take(2) {
            Some(b) => {
                let (lo, hi): (u16, u16) = (b[0] as u16, b[1] as u16);
                assert(b@[0] == old(self).rest()[0]);
                assert(b@[1] == old(self).rest()[1]);
                Some(lo + 256 * hi)
            },
            None => None,
        }
    }

    fn read_u32(&mut self) -> (r: Option<u32>)
        requires
            old(self).wf(),
        ensures
            final(self).wf(),
            match r {
                Some(v) => {
                    &&& old(self).rest().len() >= 4
                    &&& v == num32(old(self).rest())
                    &&& final(self).rest() == old(self).rest().skip(4)
                },
                None => old(self).rest().len() < 4,
            },
    {
        match self.take(4) {
            Some(b) => {
                let (b0, b1, b2, b3): (u32, u32, u32, u32) = (
                    b[0] as u32,
                    b[1] as u32,
                    b[2] as u32,
                    b[3] as u32,
                );
                assert(forall|i: int| 0 <= i < 4 ==> b@[i] == old(self).rest()[i]);
                Some(b0 + 256 * b1 + 65536 * b2 + 16777216 * b3)
            },
            None => None,
        }
    }

    /// One name: a length, and that many bytes of UTF-8.
    pub fn read_str(&mut self) -> (r: Option<String>)
        requires
            old(self).wf(),
        ensures
            final(self).wf(),
            match r {
                Some(s) => eat_name(old(self).rest()) == Some((s@, final(self).rest())),
                None => eat_name(old(self).rest()) is None,
            },
    {
        let n: usize = match self.read_u16() {
            Some(n) => n as usize,
            None => {
                return None;
            },
        };
        let ghost after = self.rest();
        match self.take(n) {
            Some(b) => {
                proof {
                    assert(b@ =~= old(self).rest().subrange(2, 2 + n));
                    assert(self.rest() =~= old(self).rest().skip(2 + n));
                }
                let mut raw: Vec<u8> = Vec::new();
                put_bytes(&mut raw, b);
                assert(raw@ =~= b@);
                text_of(raw)
            },
            None => None,
        }
    }

    /// One bitmap.
    fn read_blob(&mut self) -> (r: Option<Icon>)
        requires
            old(self).wf(),
        ensures
            final(self).wf(),
            match r {
                Some(icon) => eat_blob(old(self).rest()) == Some((icon@, final(self).rest())),
                None => eat_blob(old(self).rest()) is None,
            },
    {
        let ghost b = self.rest();
        let width: u16 = match self.read_u16() {
            Some(w) => w,
            None => {
                return None;
            },
        };
        let height: u16 = match self.read_u16() {
            Some(h) => h,
            None => {
                return None;
            },
        };
        if width == 0 || height == 0 || width > MAX_ICON_SIDE || height > MAX_ICON_SIDE {
            return None;
        }
        proof {
            lemma_area(width as int, height as int);
        }
        let n: usize = width as usize * height as usize * 4;
        assert(b.skip(2).skip(2) =~= b.skip(4));
        match self.take(n) {
            Some(s) => {
                let mut bgra: Vec<u8> = Vec::new();
                put_bytes(&mut bgra, s);
                proof {
                    assert(bgra@ =~= b.subrange(4, 4 + n));
                    assert(self.rest() =~= b.skip(4 + n));
                }
                Some(Icon { width: width as u32, height: height as u32, bgra })
            },
            None => None,
        }
    }
}

/// The shared bitmap a reference stands for, or `None` when there is no such
/// bitmap.
fn resolve(blobs: &Vec<Arc<Icon>>, blob: u32) -> (r: Option<Option<Arc<Icon>>>)
    ensures
        match r {
            Some(icon) => {
                &&& sound_ref(blob, blobs@.len())
                &&& plugin::shown(icon) == if blob == NO_BLOB {
                    None::<Bitmap>
                } else {
                    Some(pictures(blobs@)[blob as int])
                }
            },
            None => !sound_ref(blob, blobs@.len()),
        },
{
    if blob == NO_BLOB {
        Some(None)
    } else if (blob as usize) < blobs.len() {
        Some(Some(plugin::share(&blobs[blob as usize])))
    } else {
        None
    }
}

/// The index written in a file. Anything malformed - wrong magic, cut short,
/// a reference out of range - gives `None`.
pub fn decode(bytes: &[u8]) -> (r: Option<AppIndex>)
    ensures
        match r {
            Some(index) => exists|f: IndexFile| #[trigger]
                reads_as(bytes@, f) && index@ == f.catalogue(),
            None => forall|f: IndexFile| !#[trigger] reads_as(bytes@, f),
        },
{
    let r = decode_file(bytes);
    proof {
        lemma_file_off(bytes@);
        assert forall|f: IndexFile| r is None implies !#[trigger] reads_as(bytes@, f) by {
            if reads_as(bytes@, f) {
                lemma_file_on(bytes@, f);
            }
        }
    }
    r
}

fn decode_file(bytes: &[u8]) -> (r: Option<AppIndex>)
    ensures
        match r {
            Some(index) => eat_file(bytes@) is Some && index@ == (eat_file(bytes@)->0).catalogue(),
            None => eat_file(bytes@) is None,
        },
{
    let mut r = Reader::new(bytes, 0);
    assert(r.rest() =~= bytes@);
    let head = match r.take(8) {
        Some(head) => head,
        None => {
            return None;
        },
    };
    let good = head[0] == 0x41 && head[1] == 0x50 && head[2] == 0x45 && head[3] == 0x58 && head[4]
        == 0x49 && head[5] == 0x44 && head[6] == 0x58 && head[7] == 0x31;
    if !good {
        proof {
            if head@ == magic() {
                assert(head@[0] == 0x41 && head@[1] == 0x50 && head@[2] == 0x45 && head@[3] == 0x58
                    && head@[4] == 0x49 && head@[5] == 0x44 && head@[6] == 0x58 && head@[7]
                    == 0x31);
            }
        }
        return None;
    }
    assert(head@ =~= magic());
    let blob_count: u32 = match r.read_u32() {
        Some(n) => n,
        None => {
            return None;
        },
    };
    if blob_count > MAX_ENTRIES {
        return None;
    }
    let ghost start = r.rest();
    assert(start =~= bytes@.skip(12));
    let mut blobs: Vec<Arc<Icon>> = Vec::new();
    let mut i: u32 = 0;
    assert(pictures(blobs@) =~= Seq::empty());
    while i < blob_count
        invariant
            r.wf(),
            i <= blob_count,
            start == bytes@.skip(12),
            bytes@.len() >= 12,
            bytes@.take(8) == magic(),
            blob_count == num32(bytes@.skip(8)) <= MAX_ENTRIES,
            eat_blobs(start, i as nat) == Some((pictures(blobs@), r.rest())),
        decreases blob_count - i,
    {
        match r.read_blob() {
            Some(icon) => {
                let ghost before = pictures(blobs@);
                blobs.push(Arc::new(icon));
                assert(pictures(blobs@) =~= before.push(icon@));
            },
            None => {
                proof {
                    lemma_blobs_stuck(start, (i + 1) as nat, blob_count as nat);
                }
                return None;
            },
        }
        i += 1;
    }
    let ghost pics = pictures(blobs@);
    let ghost b = r.rest();
    assert(eat_file(bytes@) == eat_tail(b, pics));
    let fallback_ref: u32 = match r.read_u32() {
        Some(n) => n,
        None => {
            return None;
        },
    };
    let folder_ref: u32 = match r.read_u32() {
        Some(n) => n,
        None => {
            return None;
        },
    };
    assert(b.skip(4).skip(4) =~= b.skip(8));
    let app_count: u32 = match r.read_u32() {
        Some(n) => n,
        None => {
            return None;
        },
    };
    assert(b.skip(8).skip(4) =~= b.skip(12));
    let fallback = match resolve(&blobs, fallback_ref) {
        Some(icon) => icon,
        None => {
            return None;
        },
    };
    let folder = match resolve(&blobs, folder_ref) {
        Some(icon) => icon,
        None => {
            return None;
        },
    };
    if app_count > MAX_ENTRIES {
        return None;
    }
    let ghost tail = r.rest();
    let mut apps: Vec<IndexedApp> = Vec::new();
    let ghost mut entries = Seq::<Entry>::empty();
    let mut i: u32 = 0;
    while i < app_count
        invariant
            r.wf(),
            i <= app_count,
            pics == pictures(blobs@),
            eat_entries(tail, pics.len(), i as nat) == Some((entries, r.rest())),
            entries.len() == i,
            apps@.len() == i,
            forall|k: int|
                0 <= k < i ==> (#[trigger] apps@[k])@ == (Application {
                    name: entries[k].name,
                    app_id: entries[k].app_id,
                    icon: if entries[k].blob == NO_BLOB {
                        None
                    } else {
                        Some(pics[entries[k].blob as int])
                    },
                }),
            eat_entries(tail, pics.len(), app_count as nat) is None ==> eat_file(bytes@) is None,
        decreases app_count - i,
    {
        let ghost here = r.rest();
        let name = r.read_str();
        let name = match name {
            Some(s) => s,
            None => {
                proof {
                    lemma_entries_stuck(tail, pics.len(), (i + 1) as nat, app_count as nat);
                }
                return None;
            },
        };
        let app_id = match r.read_str() {
            Some(s) => s,
            None => {
                proof {
                    lemma_entries_stuck(tail, pics.len(), (i + 1) as nat, app_count as nat);
                }
                return None;
            },
        };
        let blob: u32 = match r.read_u32() {
            Some(n) => n,
            None => {
                proof {
                    lemma_entries_stuck(tail, pics.len(), (i + 1) as nat, app_count as nat);
                }
                return None;
            },
        };
        let icon = match resolve(&blobs, blob) {
            Some(icon) => icon,
            None => {
                proof {
                    lemma_entries_stuck(tail, pics.len(), (i + 1) as nat, app_count as nat);
                }
                return None;
            },
        };
        proof {
            let e = Entry { name: name@, app_id: app_id@, blob };
            assert(eat_entry(here, pics.len()) == Some((e, r.rest())));
            entries = entries.push(e);
        }
        apps.push(IndexedApp { name, app_id, icon });
        i += 1;
    }
    let index = AppIndex { apps, fallback, folder };
    proof {
        let f = IndexFile { blobs: pics, fallback: fallback_ref, folder: folder_ref, apps: entries };
        assert(eat_file(bytes@) == Some(f));
        assert(index@.apps =~= f.catalogue().apps);
    }
    Some(index)
}

/// Bytes read as one file at most.
pub proof fn law_bytes_read_as_one_file(bytes: Seq<u8>, f: IndexFile, g: IndexFile)
    requires
        reads_as(bytes, f),
        reads_as(bytes, g),
    ensures
        f == g,
{
    lemma_file_on(bytes, f);
    lemma_file_on(bytes, g);
}

/// A file cut short anywhere no longer reads as a file.
pub proof fn law_truncated_files_are_rejected(f: IndexFile, cut: int, g: IndexFile)
    requires
        f.valid(),
        0 <= cut < f.bytes().len(),
    ensures
        !reads_as(f.bytes().take(cut), g),
{
    if reads_as(f.bytes().take(cut), g) {
        assert(g.bytes() =~= f.bytes().subrange(0, g.bytes().len() as int));
        assert(f.bytes() =~= f.bytes().subrange(0, f.bytes().len() as int));
        law_bytes_read_as_one_file(f.bytes(), f, g);
    }
}

/// Names that fit, icons of a sane size with all their pixels, and no more
/// entries than a file may have.
pub open spec fn fits(c: Catalogue) -> bool {
    &&& c.apps.len() <= MAX_ENTRIES
    &&& distinct(icons_of(c)).len() <= MAX_ENTRIES
    &&& forall|i: int|
        0 <= i < icons_of(c).len() ==> (#[trigger] icons_of(c)[i] matches Some(b) ==> sound_blob(b))
}

proof fn lemma_distinct_covers(icons: Seq<Option<Bitmap>>)
    ensures
        forall|i: int|
            0 <= i < icons.len() ==> (#[trigger] icons[i] matches Some(b) ==> distinct(
                icons,
            ).contains(b)),
        forall|j: int|
            0 <= j < distinct(icons).len() ==> icons.contains(Some(#[trigger] distinct(icons)[j])),
    decreases icons.len(),
{
    if icons.len() > 0 {
        let rest = icons.drop_last();
        lemma_distinct_covers(rest);
        let (d, before) = (distinct(icons), distinct(rest));
        assert forall|i: int| 0 <= i < icons.len() implies (#[trigger] icons[i] matches Some(b)
            ==> d.contains(b)) by {
            if let Some(b) = icons[i] {
                if i < rest.len() {
                    assert(rest[i] == icons[i]);
                    assert(before.contains(b));
                    let j = choose|j: int| 0 <= j < before.len() && before[j] == b;
                    assert(d[j] == b);
                } else if !before.contains(b) {
                    assert(d[d.len() - 1] == b);
                }
            }
        }
        assert forall|j: int| 0 <= j < d.len() implies icons.contains(Some(#[trigger] d[j])) by {
            if j < before.len() {
                assert(d[j] == before[j]);
                assert(rest.contains(Some(before[j])));
                let i = choose|i: int| 0 <= i < rest.len() && rest[i] == Some(before[j]);
                assert(icons[i] == Some(d[j]));
            } else {
                assert(icons[icons.len() - 1] == Some(d[j]));
            }
        }
    }
}

proof fn lemma_blob_of_stands(c: Catalogue, i: int)
    requires
        fits(c),
        0 <= i < icons_of(c).len(),
    ensures
        sound_ref(blob_of(file_of(c).blobs, icons_of(c)[i]), file_of(c).blobs.len()),
        file_of(c).bitmap(blob_of(file_of(c).blobs, icons_of(c)[i])) == icons_of(c)[i],
{
    let icons = icons_of(c);
    let blobs = file_of(c).blobs;
    lemma_distinct_covers(icons);
    if let Some(b) = icons[i] {
        assert(blobs.contains(b));
        let j = blobs.index_of(b);
        assert(0 <= j < blobs.len() && blobs[j] == b);
    }
}

/// What is written reads back: decoding the file of an index gives the same
/// applications, in order, with the same icons. Names too long for the file
/// come back cut; those that fit come back whole.
pub proof fn law_written_index_reads_back(c: Catalogue, f: IndexFile)
    requires
        fits(c),
    ensures
        reads_as(file_of(c).bytes(), file_of(c)),
        reads_as(file_of(c).bytes(), f) ==> f.catalogue() == (Catalogue {
            apps: c.apps.map_values(
                |a: Application|
                    Application { name: kept(a.name), app_id: kept(a.app_id), icon: a.icon },
            ),
            fallback: c.fallback,
            folder: c.folder,
        }),
        reads_as(file_of(c).bytes(), f) && (forall|i: int|
            0 <= i < c.apps.len() ==> encode_utf8((#[trigger] c.apps[i]).name).len() <= MAX_NAME
                && encode_utf8(c.apps[i].app_id).len() <= MAX_NAME) ==> f.catalogue() == c,
{
    let g = file_of(c);
    let icons = icons_of(c);
    let n = c.apps.len() as int;
    lemma_distinct_covers(icons);
    assert forall|j: int| 0 <= j < g.blobs.len() implies sound_blob(#[trigger] g.blobs[j]) by {
        let i = choose|i: int| 0 <= i < icons.len() && icons[i] == Some(g.blobs[j]);
        assert(icons[i] == Some(g.blobs[j]));
    }
    lemma_blob_of_stands(c, n);
    lemma_blob_of_stands(c, n + 1);
    assert(icons[n] == c.fallback);
    assert(icons[n + 1] == c.folder);
    assert forall|i: int| 0 <= i < g.apps.len() implies sound_entry(
        #[trigger] g.apps[i],
        g.blobs.len(),
    ) && g.bitmap(g.apps[i].blob) == c.apps[i].icon by {
        assert(icons[i] == c.apps[i].icon);
        lemma_blob_of_stands(c, i);
        lemma_kept_fits(c.apps[i].name);
        lemma_kept_fits(c.apps[i].app_id);
    }
    assert(g.bytes() =~= g.bytes().subrange(0, g.bytes().len() as int));
    if reads_as(g.bytes(), f) {
        law_bytes_read_as_one_file(g.bytes(), f, g);
        let cut = c.apps.map_values(
            |a: Application|
                Application { name: kept(a.name), app_id: kept(a.app_id), icon: a.icon },
        );
        assert(f.catalogue().apps =~= cut);
        if forall|i: int|
            0 <= i < c.apps.len() ==> encode_utf8((#[trigger] c.apps[i]).name).len() <= MAX_NAME
                && encode_utf8(c.apps[i].app_id).len() <= MAX_NAME {
            assert forall|i: int| 0 <= i < n implies #[trigger] cut[i] == c.apps[i] by {
                lemma_kept_fits(c.apps[i].name);
                lemma_kept_fits(c.apps[i].app_id);
            }
            assert(cut =~= c.apps);
        }
    }
}

} // verus!
