//! Launch history, which ranks what is used often and lately above what
//! merely matches well.
//!
//! Each entry keeps one weight that fades with time rather than a list of
//! launches: a launch adds one to what is left of it. Weights are
//! floating-point numbers, held here by their bits; fading them is left to
//! whoever has a clock.
//!
//! On disk a weight stands in thousandths, in a file of its own beside the
//! other machine-local state: the configuration belongs to the user, and
//! should not change with every launch.
use vstd::prelude::*;
use vstd::string::*;

use crate::app::{self, Rank, Standing};
use crate::numbers;
use crate::order::{self, Key, Keyed};
use crate::pieces;
use crate::text::{chars_of, same, slice_of, string_of};

verus! {

/// First line of the file.
pub const HEADER: &'static str =
    "# apex frecency - machine-local launch history, safe to delete";

/// Bits of the least weight that is kept: one twentieth.
pub const PRUNE_BELOW: u32 = 0x3D4C_CCCD;

/// Bits of positive infinity, past which no weight is a number.
pub const INFINITE: u32 = 0x7F80_0000;

// ---- the file ---------------------------------------------------------------------------

/// An entry as it is kept on disk.
pub struct Saved {
    pub plugin: String,
    /// The weight in thousandths.
    pub milli: u64,
    /// When it was last launched, in seconds.
    pub last: u64,
    pub payload: String,
}

/// What an entry on disk says.
#[verifier::ext_equal]
pub struct Note {
    pub plugin: Seq<char>,
    pub milli: u64,
    pub last: u64,
    pub payload: Seq<char>,
}

impl View for Saved {
    type V = Note;

    open spec fn view(&self) -> Note {
        Note {
            plugin: self.plugin@,
            milli: self.milli,
            last: self.last,
            payload: self.payload@,
        }
    }
}

pub open spec fn notes(v: Seq<Saved>) -> Seq<Note> {
    v.map_values(|s: Saved| s@)
}

/// What stands before the first tab, and after it.
pub open spec fn at_tab(s: Seq<char>) -> Option<(Seq<char>, Seq<char>)> {
    let k = pieces::first_of(s, '\t');
    if k < s.len() {
        Some((s.take(k), s.skip(k + 1)))
    } else {
        None
    }
}

/// A whole number that fits.
pub open spec fn whole(s: Seq<char>) -> Option<u64> {
    match numbers::decimal(s) {
        Some(v) => if v <= u64::MAX {
            Some(v as u64)
        } else {
            None
        },
        None => None,
    }
}

/// The entry a line describes: plugin, weight, time and payload between tabs.
/// The payload comes last, so a tab in it shifts nothing. Comments, and lines
/// that make no sense, describe none.
pub open spec fn note_in(line: Seq<char>) -> Option<Note> {
    if line.len() == 0 || line[0] == '#' {
        None
    } else {
        match at_tab(line) {
            Some((plugin, rest)) => match at_tab(rest) {
                Some((weight, rest)) => match at_tab(rest) {
                    Some((last, payload)) => match (whole(weight), whole(last)) {
                        (Some(milli), Some(last)) => if milli > 0 && plugin.len() > 0
                            && payload.len() > 0 {
                            Some(Note { plugin, milli, last, payload })
                        } else {
                            None
                        },
                        _ => None,
                    },
                    None => None,
                },
                None => None,
            },
            None => None,
        }
    }
}

/// Where an entry stands; the number of entries when it does not.
pub open spec fn note_at(v: Seq<Note>, plugin: Seq<char>, payload: Seq<char>) -> int {
    pieces::first_where(v, |x: Note| x.plugin == plugin && x.payload == payload)
}

/// The entries with one more, in place of the one it replaces.
pub open spec fn noted(v: Seq<Note>, x: Note) -> Seq<Note> {
    let k = note_at(v, x.plugin, x.payload);
    if k < v.len() {
        v.update(k, x)
    } else {
        v.push(x)
    }
}

/// The entries that lines describe. Of two for one thing the later counts.
pub open spec fn notes_in(lines: Seq<Seq<char>>) -> Seq<Note>
    decreases lines.len(),
{
    if lines.len() == 0 {
        Seq::empty()
    } else {
        let before = notes_in(lines.drop_last());
        match note_in(lines.last()) {
            Some(x) => noted(before, x),
            None => before,
        }
    }
}

proof fn lemma_note_at_is(v: Seq<Note>, plugin: Seq<char>, payload: Seq<char>, k: int)
    requires
        0 <= k <= v.len(),
        k < v.len() ==> v[k].plugin == plugin && v[k].payload == payload,
        forall|j: int|
            0 <= j < k ==> !((#[trigger] v[j]).plugin == plugin && v[j].payload == payload),
    ensures
        note_at(v, plugin, payload) == k,
{
    pieces::lemma_first_where_is(v, |x: Note| x.plugin == plugin && x.payload == payload, k);
}

/// What stands before the first tab at or after `from`, and where what stands
/// after it starts.
fn cut(chars: &[char], from: usize) -> (r: Option<(Vec<char>, usize)>)
    requires
        from <= chars@.len(),
    ensures
        match r {
            Some((a, k)) => k <= chars@.len() && at_tab(chars@.skip(from as int)) == Some(
                (a@, chars@.skip(k as int)),
            ),
            None => at_tab(chars@.skip(from as int)) is None,
        },
{
    let k: usize = pieces::find_from(chars, from, '\t');
    if k < chars.len() {
        let a = slice_of(chars, from, k);
        proof {
            let s = chars@.skip(from as int);
            assert(a@ =~= s.take(k - from));
            assert(s.skip(k - from + 1) =~= chars@.skip(k + 1));
        }
        Some((a, k + 1))
    } else {
        None
    }
}

/// The entry a line describes.
fn read_note(line: &[char]) -> (r: Option<Saved>)
    ensures
        match r {
            Some(s) => note_in(line@) == Some(s@),
            None => note_in(line@) is None,
        },
{
    if line.len() == 0 || line[0] == '#' {
        return None;
    }
    assert(line@.skip(0) =~= line@);
    let (plugin, a) = match cut(line, 0) {
        Some(r) => r,
        None => {
            return None;
        },
    };
    let (weight, b) = match cut(line, a) {
        Some(r) => r,
        None => {
            return None;
        },
    };
    let (time, c) = match cut(line, b) {
        Some(r) => r,
        None => {
            return None;
        },
    };
    let (milli, last): (u64, u64) = match (
        numbers::parse(weight.as_slice()),
        numbers::parse(time.as_slice()),
    ) {
        (Some(m), Some(l)) => (m, l),
        _ => {
            return None;
        },
    };
    if milli == 0 || plugin.len() == 0 || c >= line.len() {
        return None;
    }
    let payload = slice_of(line, c, line.len());
    assert(payload@ =~= line@.skip(c as int));
    Some(
        Saved {
            plugin: string_of(plugin.as_slice()),
            milli,
            last,
            payload: string_of(payload.as_slice()),
        },
    )
}

/// Puts an entry in, in place of the one it replaces.
fn note(v: &mut Vec<Saved>, x: Saved)
    ensures
        notes(final(v)@) == noted(notes(old(v)@), x@),
{
    let ghost before = notes(v@);
    let mut k: usize = 0;
    while k < v.len() && !(same(v[k].plugin.as_str(), x.plugin.as_str()) && same(
        v[k].payload.as_str(),
        x.payload.as_str(),
    ))
        invariant
            k <= v@.len(),
            before == notes(v@),
            forall|j: int|
                0 <= j < k ==> !((#[trigger] before[j]).plugin == x@.plugin && before[j].payload
                    == x@.payload),
        decreases v@.len() - k,
    {
        assert(before[k as int] == v@[k as int]@);
        k += 1;
    }
    proof {
        if k < v@.len() {
            assert(before[k as int] == v@[k as int]@);
        }
        lemma_note_at_is(before, x@.plugin, x@.payload, k as int);
    }
    let ghost y = x@;
    if k < v.len() {
        v.set(k, x);
        assert(notes(v@) =~= before.update(k as int, y));
    } else {
        v.push(x);
        assert(notes(v@) =~= before.push(y));
    }
}

/// The entries a file describes.
pub fn parse(s: &str) -> (out: Vec<Saved>)
    ensures
        notes(out@) == notes_in(pieces::lines_of(s@)),
{
    let chars = chars_of(s);
    let lines = pieces::lines(chars.as_slice());
    let ghost ls = pieces::texts(lines@);
    let mut out: Vec<Saved> = Vec::new();
    let mut i: usize = 0;
    assert(notes(out@) =~= notes_in(ls.take(0)));
    while i < lines.len()
        invariant
            i <= lines@.len(),
            ls == pieces::texts(lines@),
            notes(out@) == notes_in(ls.take(i as int)),
        decreases lines@.len() - i,
    {
        proof {
            assert(ls.take(i + 1).drop_last() =~= ls.take(i as int));
            assert(ls.take(i + 1).last() == lines@[i as int]@);
        }
        match read_note(lines[i].as_slice()) {
            Some(x) => {
                note(&mut out, x);
            },
            None => {},
        }
        i += 1;
    }
    assert(ls.take(ls.len() as int) =~= ls);
    out
}

/// The line of an entry.
pub open spec fn line_of(x: Note) -> Seq<char> {
    x.plugin.push('\t') + numbers::shown(x.milli as nat).push('\t') + numbers::shown(
        x.last as nat,
    ).push('\t') + x.payload
}

/// Lines, each with the newline that ends it.
pub open spec fn ended(lines: Seq<Seq<char>>) -> Seq<char>
    decreases lines.len(),
{
    if lines.len() == 0 {
        Seq::empty()
    } else {
        ended(lines.drop_last()) + lines.last().push('\n')
    }
}

/// The file that holds entries: the header, then their lines in dictionary
/// order, so that two files differ only where their entries do.
pub open spec fn file_of(v: Seq<Note>) -> Seq<char> {
    HEADER@.push('\n') + ended(
        order::ranked(v.map_values(|x: Note| line_of(x)), order::by_text()),
    )
}

fn write_line(x: &Saved) -> (r: String)
    ensures
        r@ == line_of(x@),
{
    let mut out = chars_of(x.plugin.as_str());
    out.push('\t');
    let milli = numbers::show(x.milli as u128);
    pieces::append(&mut out, milli.as_slice());
    out.push('\t');
    let last = numbers::show(x.last as u128);
    pieces::append(&mut out, last.as_slice());
    out.push('\t');
    let payload = chars_of(x.payload.as_str());
    pieces::append(&mut out, payload.as_slice());
    assert(out@ =~= line_of(x@));
    string_of(out.as_slice())
}

/// The file that holds entries.
pub fn to_text(v: &Vec<Saved>) -> (r: String)
    ensures
        r@ == file_of(notes(v@)),
{
    let ghost want = notes(v@).map_values(|x: Note| line_of(x));
    let mut unsorted: Vec<String> = Vec::new();
    let mut i: usize = 0;
    assert(pieces::strings(unsorted@) =~= want.take(0));
    while i < v.len()
        invariant
            i <= v@.len(),
            want == notes(v@).map_values(|x: Note| line_of(x)),
            pieces::strings(unsorted@) == want.take(i as int),
        decreases v@.len() - i,
    {
        let line = write_line(&v[i]);
        proof {
            assert(notes(v@)[i as int] == v@[i as int]@);
            assert(want[i as int] == line@);
            assert(want.take(i + 1) =~= want.take(i as int).push(want[i as int]));
        }
        let ghost before = pieces::strings(unsorted@);
        unsorted.push(line);
        assert(pieces::strings(unsorted@) =~= before.push(line@));
        i += 1;
    }
    assert(want.take(want.len() as int) =~= want);
    let lines = order::sorted(&unsorted);
    let ghost ls = pieces::strings(lines@);
    let mut out = chars_of(HEADER);
    out.push('\n');
    let ghost head = out@;
    let mut k: usize = 0;
    assert(out@ =~= head + ended(ls.take(0)));
    while k < lines.len()
        invariant
            k <= lines@.len(),
            ls == pieces::strings(lines@),
            out@ == head + ended(ls.take(k as int)),
        decreases lines@.len() - k,
    {
        proof {
            assert(ls.take(k + 1).drop_last() =~= ls.take(k as int));
            assert(ls.take(k + 1).last() == lines@[k as int]@);
        }
        let line = chars_of(lines[k].as_str());
        pieces::append(&mut out, line.as_slice());
        out.push('\n');
        assert(out@ =~= head + ended(ls.take(k + 1)));
        k += 1;
    }
    assert(ls.take(ls.len() as int) =~= ls);
    string_of(out.as_slice())
}

// ---- the history ----------------------------------------------------------------------------

/// An entry of the history.
struct Entry {
    plugin: String,
    payload: String,
    /// Bits of the weight.
    weight: u32,
    /// When it was last launched, in seconds.
    last: u64,
}

/// What an entry of the history says.
#[verifier::ext_equal]
pub struct Launch {
    pub plugin: Seq<char>,
    pub payload: Seq<char>,
    pub weight: u32,
    pub last: u64,
}

impl View for Entry {
    type V = Launch;

    closed spec fn view(&self) -> Launch {
        Launch {
            plugin: self.plugin@,
            payload: self.payload@,
            weight: self.weight,
            last: self.last,
        }
    }
}

closed spec fn launches(v: Seq<Entry>) -> Seq<Launch> {
    v.map_values(|e: Entry| e@)
}

/// The launch is of this entry.
pub open spec fn is_of(l: Launch, plugin: Seq<char>, payload: Seq<char>) -> bool {
    l.plugin == plugin && l.payload == payload
}

/// Where an entry stands; the number of entries when it does not.
pub open spec fn place_of(v: Seq<Launch>, plugin: Seq<char>, payload: Seq<char>) -> int {
    pieces::first_where(v, |l: Launch| is_of(l, plugin, payload))
}

/// The entry of a plugin and payload.
pub open spec fn launch_of(v: Seq<Launch>, plugin: Seq<char>, payload: Seq<char>) -> Option<
    Launch,
> {
    let k = place_of(v, plugin, payload);
    if k < v.len() {
        Some(v[k])
    } else {
        None
    }
}

/// No entry stands in the history twice.
pub open spec fn unique(v: Seq<Launch>) -> bool {
    forall|i: int, j: int|
        0 <= i < j < v.len() ==> !is_of(
            #[trigger] v[i],
            (#[trigger] v[j]).plugin,
            v[j].payload,
        )
}

/// The history once a launch was noted.
pub open spec fn recorded(v: Seq<Launch>, x: Launch) -> Seq<Launch> {
    let k = place_of(v, x.plugin, x.payload);
    if k < v.len() {
        v.update(k, x)
    } else {
        v.push(x)
    }
}

/// Where a weight stands among all weights: the total order of floating-point
/// numbers, in which negative ones come before positive ones and what is no
/// number lies outside both.
pub open spec fn standing_of(weight: u32) -> int {
    if weight < 0x8000_0000 {
        weight as int
    } else {
        -(weight - 0x8000_0000) - 1
    }
}

/// The weight is a number, and not too small to be kept.
pub open spec fn lasting(weight: u32) -> bool {
    PRUNE_BELOW <= weight <= INFINITE
}

/// The entries whose faded weight is not too small.
pub open spec fn pruned(v: Seq<Launch>, faded: Seq<u32>) -> Seq<Launch>
    decreases v.len(),
{
    if v.len() == 0 {
        v
    } else {
        let before = pruned(v.drop_last(), faded);
        if lasting(faded[v.len() - 1]) {
            before.push(v.last())
        } else {
            before
        }
    }
}

/// An entry with its faded weight, and what that adds to a score.
#[verifier::ext_equal]
pub struct Weighed {
    pub plugin: Seq<char>,
    pub payload: Seq<char>,
    pub weight: u32,
    pub bonus: u8,
}

/// The entries with their faded weights.
pub open spec fn weighed(v: Seq<Launch>, faded: Seq<u32>, bonuses: Seq<u8>) -> Seq<Weighed> {
    Seq::new(
        v.len(),
        |i: int|
            Weighed {
                plugin: v[i].plugin,
                payload: v[i].payload,
                weight: faded[i],
                bonus: bonuses[i],
            },
    )
}

/// Greater weights first, equal ones by payload, so that they keep their
/// order from one time to the next.
pub open spec fn by_weight() -> spec_fn(Weighed) -> Key {
    |w: Weighed| Key { number: -standing_of(w.weight), text: w.payload }
}

/// The entries, best first.
pub open spec fn best(v: Seq<Launch>, faded: Seq<u32>, bonuses: Seq<u8>) -> Seq<Weighed> {
    order::ranked(weighed(v, faded, bonuses), by_weight())
}

/// What the launcher needs to know of an entry.
pub open spec fn rank_of(w: Weighed) -> Rank {
    Rank { plugin: w.plugin, payload: w.payload, bonus: w.bonus as int }
}

proof fn lemma_place_of(v: Seq<Launch>, plugin: Seq<char>, payload: Seq<char>)
    ensures
        0 <= place_of(v, plugin, payload) <= v.len(),
        ({
            let k = place_of(v, plugin, payload);
            &&& k < v.len() ==> is_of(v[k], plugin, payload)
            &&& forall|j: int| 0 <= j < k ==> !is_of(#[trigger] v[j], plugin, payload)
        }),
{
    pieces::lemma_first_where(v, |l: Launch| is_of(l, plugin, payload));
}

proof fn lemma_place_of_is(v: Seq<Launch>, plugin: Seq<char>, payload: Seq<char>, k: int)
    requires
        0 <= k <= v.len(),
        k < v.len() ==> is_of(v[k], plugin, payload),
        forall|j: int| 0 <= j < k ==> !is_of(#[trigger] v[j], plugin, payload),
    ensures
        place_of(v, plugin, payload) == k,
{
    pieces::lemma_first_where_is(v, |l: Launch| is_of(l, plugin, payload), k);
}

/// Noting a launch keeps the history free of twins.
proof fn lemma_recorded_unique(v: Seq<Launch>, x: Launch)
    requires
        unique(v),
    ensures
        unique(recorded(v, x)),
{
    lemma_place_of(v, x.plugin, x.payload);
    let k = place_of(v, x.plugin, x.payload);
    let r = recorded(v, x);
    assert forall|i: int, j: int| 0 <= i < j < r.len() implies !is_of(
        #[trigger] r[i],
        (#[trigger] r[j]).plugin,
        r[j].payload,
    ) by {
        if k < v.len() {
            assert(is_of(v[k], x.plugin, x.payload));
            assert(r[i].plugin == v[i].plugin && r[i].payload == v[i].payload);
            assert(r[j].plugin == v[j].plugin && r[j].payload == v[j].payload);
            assert(!is_of(v[i], v[j].plugin, v[j].payload));
        } else {
            assert(r[i] == v[i]);
            if j < v.len() {
                assert(r[j] == v[j]);
            }
        }
    }
}

proof fn lemma_pruned(v: Seq<Launch>, faded: Seq<u32>)
    ensures
        forall|i: int|
            0 <= i < pruned(v, faded).len() ==> v.contains(#[trigger] pruned(v, faded)[i]),
        unique(v) ==> unique(pruned(v, faded)),
    decreases v.len(),
{
    if v.len() > 0 {
        let t = v.drop_last();
        lemma_pruned(t, faded);
        let r = pruned(v, faded);
        let before = pruned(t, faded);
        assert forall|i: int| 0 <= i < r.len() implies v.contains(#[trigger] r[i]) by {
            if i < before.len() {
                assert(r[i] == before[i]);
                let k = choose|k: int| 0 <= k < t.len() && t[k] == before[i];
                assert(v[k] == before[i]);
            } else {
                assert(v[v.len() - 1] == r[i]);
            }
        }
        if unique(v) {
            assert forall|i: int, j: int| 0 <= i < j < t.len() implies !is_of(
                #[trigger] t[i],
                (#[trigger] t[j]).plugin,
                t[j].payload,
            ) by {
                assert(t[i] == v[i] && t[j] == v[j]);
            }
            assert forall|i: int, j: int| 0 <= i < j < r.len() implies !is_of(
                #[trigger] r[i],
                (#[trigger] r[j]).plugin,
                r[j].payload,
            ) by {
                assert(r[i] == before[i]);
                if j < before.len() {
                    assert(r[j] == before[j]);
                } else {
                    assert(t.contains(before[i]));
                    let k = choose|k: int| 0 <= k < t.len() && t[k] == before[i];
                    assert(v[k] == before[i]);
                    assert(v[v.len() - 1] == r[j]);
                    assert(!is_of(v[k], v[v.len() - 1].plugin, v[v.len() - 1].payload));
                }
            }
        }
    }
}

/// An entry with its faded weight.
struct Aged {
    plugin: String,
    payload: String,
    weight: u32,
    bonus: u8,
}

impl View for Aged {
    type V = Weighed;

    closed spec fn view(&self) -> Weighed {
        Weighed {
            plugin: self.plugin@,
            payload: self.payload@,
            weight: self.weight,
            bonus: self.bonus,
        }
    }
}

impl Keyed for Aged {
    closed spec fn key(&self) -> Key {
        Key { number: -standing_of(self.weight), text: self.payload@ }
    }

    fn goes_before(&self, other: &Aged) -> bool {
        let (a, b): (i64, i64) = (standing(self.weight), standing(other.weight));
        a > b || (a == b && order::comes_first(self.payload.as_str(), other.payload.as_str()))
    }
}

/// Where a weight stands among all weights.
pub fn standing(weight: u32) -> (r: i64)
    ensures
        r == standing_of(weight),
{
    if weight < 0x8000_0000 {
        weight as i64
    } else {
        -(weight as i64 - 0x8000_0000) - 1
    }
}

/// The launch history.
pub struct Frecency {
    entries: Vec<Entry>,
}

impl View for Frecency {
    type V = Seq<Launch>;

    closed spec fn view(&self) -> Seq<Launch> {
        launches(self.entries@)
    }
}

impl Default for Frecency {
    /// An empty history.
    fn default() -> (f: Frecency)
        ensures
            f@ == Seq::<Launch>::empty(),
    {
        let f = Frecency { entries: Vec::new() };
        assert(f@ =~= Seq::empty());
        f
    }
}

impl Frecency {
    #[verifier::type_invariant]
    spec fn well_formed(self) -> bool {
        unique(launches(self.entries@))
    }

    /// How many entries there are.
    pub fn len(&self) -> (n: usize)
        ensures
            n == self@.len(),
            unique(self@),
    {
        proof {
            use_type_invariant(self);
        }
        self.entries.len()
    }

    /// The weight of every entry, and when it was last launched.
    pub fn weights(&self) -> (out: Vec<(u32, u64)>)
        ensures
            out@.len() == self@.len(),
            forall|i: int|
                0 <= i < out@.len() ==> (#[trigger] out@[i]) == (self@[i].weight, self@[i].last),
    {
        let mut out: Vec<(u32, u64)> = Vec::new();
        let mut i: usize = 0;
        while i < self.entries.len()
            invariant
                i <= self.entries@.len() == self@.len(),
                out@.len() == i,
                forall|j: int|
                    0 <= j < i ==> (#[trigger] out@[j]) == (self@[j].weight, self@[j].last),
            decreases self.entries@.len() - i,
        {
            assert(self@[i as int] == self.entries@[i as int]@);
            out.push((self.entries[i].weight, self.entries[i].last));
            i += 1;
        }
        out
    }

    /// Where an entry stands; the number of entries when it does not.
    fn place(&self, plugin: &str, payload: &str) -> (k: usize)
        ensures
            k == place_of(self@, plugin@, payload@),
            k <= self@.len(),
    {
        let mut k: usize = 0;
        while k < self.entries.len() && !(same(self.entries[k].plugin.as_str(), plugin) && same(
            self.entries[k].payload.as_str(),
            payload,
        ))
            invariant
                k <= self.entries@.len() == self@.len(),
                forall|j: int| 0 <= j < k ==> !is_of(#[trigger] self@[j], plugin@, payload@),
            decreases self.entries@.len() - k,
        {
            assert(self@[k as int] == self.entries@[k as int]@);
            k += 1;
        }
        proof {
            if k < self.entries@.len() {
                assert(self@[k as int] == self.entries@[k as int]@);
            }
            lemma_place_of_is(self@, plugin@, payload@, k as int);
        }
        k
    }

    /// The weight of an entry, and when it was last launched.
    pub fn weight(&self, plugin: &str, payload: &str) -> (r: Option<(u32, u64)>)
        ensures
            r == match launch_of(self@, plugin@, payload@) {
                Some(l) => Some((l.weight, l.last)),
                None => None,
            },
    {
        let k: usize = self.place(plugin, payload);
        if k < self.entries.len() {
            assert(self@[k as int] == self.entries@[k as int]@);
            Some((self.entries[k].weight, self.entries[k].last))
        } else {
            None
        }
    }

    /// Notes a launch: `weight` is what it makes of the entry's weight.
    pub fn record(&mut self, plugin: &str, payload: &str, weight: u32, now: u64)
        ensures
            final(self)@ == recorded(
                old(self)@,
                Launch { plugin: plugin@, payload: payload@, weight, last: now },
            ),
    {
        let k: usize = self.place(plugin, payload);
        proof {
            use_type_invariant(&*self);
        }
        let ghost v = self@;
        let ghost x = Launch { plugin: plugin@, payload: payload@, weight, last: now };
        let entry = Entry {
            plugin: plugin.to_owned(),
            payload: payload.to_owned(),
            weight,
            last: now,
        };
        let mut entries: Vec<Entry> = Vec::new();
        std::mem::swap(&mut self.entries, &mut entries);
        if k < entries.len() {
            entries.set(k, entry);
            assert(launches(entries@) =~= v.update(k as int, x));
        } else {
            entries.push(entry);
            assert(launches(entries@) =~= v.push(x));
        }
        proof {
            lemma_recorded_unique(v, x);
        }
        self.entries = entries;
    }

    /// Drops what has faded away; `faded` is what is left of every weight.
    pub fn prune(&mut self, faded: &Vec<u32>)
        requires
            faded@.len() == old(self)@.len(),
        ensures
            final(self)@ == pruned(old(self)@, faded@),
    {
        proof {
            use_type_invariant(&*self);
            lemma_pruned(self@, faded@);
        }
        let ghost v = self@;
        let mut entries: Vec<Entry> = Vec::new();
        std::mem::swap(&mut self.entries, &mut entries);
        let n: usize = entries.len();
        let mut seen: usize = 0;
        let mut i: usize = 0;
        assert(launches(entries@) =~= pruned(v.take(0), faded@) + v.skip(0));
        while seen < n
            invariant
                i <= seen <= n == v.len(),
                faded@.len() == n,
                pruned(v.take(seen as int), faded@).len() == i,
                launches(entries@) == pruned(v.take(seen as int), faded@) + v.skip(seen as int),
            decreases n - seen,
        {
            let ghost done = pruned(v.take(seen as int), faded@);
            proof {
                assert(launches(entries@).len() == entries@.len());
                assert(v.take(seen + 1).drop_last() =~= v.take(seen as int));
                assert(v.take(seen + 1).last() == v[seen as int]);
            }
            let w: u32 = faded[seen];
            if PRUNE_BELOW <= w && w <= INFINITE {
                assert(done + v.skip(seen as int) =~= done.push(v[seen as int]) + v.skip(seen + 1));
                i += 1;
            } else {
                let ghost before = entries@;
                entries.remove(i);
                assert(launches(entries@) =~= launches(before).remove(i as int));
                assert(launches(entries@) =~= done + v.skip(seen + 1));
            }
            seen += 1;
        }
        assert(v.take(n as int) =~= v);
        assert(launches(entries@) =~= pruned(v, faded@));
        self.entries = entries;
    }

    /// The entries, best first; `faded` is what is left of every weight.
    fn rank(&self, faded: &Vec<u32>, bonuses: &Vec<u8>) -> (out: Vec<Aged>)
        requires
            faded@.len() == self@.len(),
            bonuses@.len() == self@.len(),
        ensures
            out@.map_values(|a: Aged| a@) == best(self@, faded@, bonuses@),
    {
        let ghost want = weighed(self@, faded@, bonuses@);
        let ghost f = |a: Aged| a@;
        let mut out: Vec<Aged> = Vec::new();
        let mut i: usize = 0;
        while i < self.entries.len()
            invariant
                i <= self.entries@.len() == self@.len(),
                faded@.len() == self@.len(),
                bonuses@.len() == self@.len(),
                want == weighed(self@, faded@, bonuses@),
                out@.len() == i,
                forall|j: int| 0 <= j < i ==> (#[trigger] out@[j])@ == want[j],
            decreases self.entries@.len() - i,
        {
            assert(self@[i as int] == self.entries@[i as int]@);
            out.push(
                Aged {
                    plugin: self.entries[i].plugin.clone(),
                    payload: self.entries[i].payload.clone(),
                    weight: faded[i],
                    bonus: bonuses[i],
                },
            );
            i += 1;
        }
        proof {
            assert(out@.map_values(f) =~= want);
            order::lemma_ranked_maps(out@, f, order::key_of::<Aged>(), by_weight());
        }
        order::sort(&mut out);
        out
    }

    /// The `n` best entries, best first: plugin and payload of each.
    pub fn top(&self, n: usize, faded: &Vec<u32>) -> (out: Vec<(String, String)>)
        requires
            faded@.len() == self@.len(),
        ensures
            ({
                let all = best(self@, faded@, Seq::new(self@.len(), |i: int| 0u8));
                &&& out@.len() == if n < all.len() {
                    n as nat
                } else {
                    all.len()
                }
                &&& forall|i: int|
                    0 <= i < out@.len() ==> ((#[trigger] out@[i]).0@, out@[i].1@) == (
                        all[i].plugin,
                        all[i].payload,
                    )
            }),
    {
        let mut bonuses: Vec<u8> = Vec::new();
        let mut i: usize = 0;
        while i < self.entries.len()
            invariant
                i <= self.entries@.len() == self@.len(),
                bonuses@ == Seq::new(i as nat, |i: int| 0u8),
            decreases self.entries@.len() - i,
        {
            bonuses.push(0);
            assert(bonuses@ =~= Seq::new((i + 1) as nat, |i: int| 0u8));
            i += 1;
        }
        let ranked = self.rank(faded, &bonuses);
        let ghost all = best(self@, faded@, bonuses@);
        let f = Ghost(|a: Aged| a@);
        assert(ranked@.map_values(f@) =~= all);
        let mut out: Vec<(String, String)> = Vec::new();
        let mut k: usize = 0;
        while k < ranked.len() && k < n
            invariant
                k <= ranked@.len() == all.len(),
                k <= n,
                forall|j: int| 0 <= j < all.len() ==> (#[trigger] ranked@[j])@ == all[j],
                out@.len() == k,
                forall|j: int|
                    0 <= j < k ==> ((#[trigger] out@[j]).0@, out@[j].1@) == (
                        all[j].plugin,
                        all[j].payload,
                    ),
            decreases ranked@.len() - k,
        {
            assert(ranked@[k as int]@ == all[k as int]);
            out.push((ranked[k].plugin.clone(), ranked[k].payload.clone()));
            k += 1;
        }
        out
    }

    /// The standing of every entry, best first; `bonuses` is what its faded
    /// weight adds to a score.
    pub fn standing(&self, faded: &Vec<u32>, bonuses: &Vec<u8>) -> (out: Vec<Standing>)
        requires
            faded@.len() == self@.len(),
            bonuses@.len() == self@.len(),
        ensures
            app::ranks(out@) == best(self@, faded@, bonuses@).map_values(
                |w: Weighed| rank_of(w),
            ),
    {
        let ranked = self.rank(faded, bonuses);
        let ghost all = best(self@, faded@, bonuses@);
        let f = Ghost(|a: Aged| a@);
        assert(ranked@.map_values(f@) =~= all);
        let mut out: Vec<Standing> = Vec::new();
        let mut k: usize = 0;
        while k < ranked.len()
            invariant
                k <= ranked@.len() == all.len(),
                forall|j: int| 0 <= j < all.len() ==> (#[trigger] ranked@[j])@ == all[j],
                out@.len() == k,
                forall|j: int|
                    0 <= j < k ==> app::ranks(out@)[j] == rank_of(#[trigger] all[j]),
            decreases ranked@.len() - k,
        {
            let ghost before = out@;
            assert(ranked@[k as int]@ == all[k as int]);
            out.push(
                Standing {
                    plugin: ranked[k].plugin.clone(),
                    payload: ranked[k].payload.clone(),
                    bonus: ranked[k].bonus,
                },
            );
            assert forall|j: int| 0 <= j < k + 1 implies app::ranks(out@)[j] == rank_of(
                #[trigger] all[j],
            ) by {
                if j < k {
                    assert(app::ranks(out@)[j] == app::ranks(before)[j]);
                }
            }
            k += 1;
        }
        assert(app::ranks(out@) =~= all.map_values(|w: Weighed| rank_of(w)));
        out
    }

    /// The history that was kept on disk; `weights` are the weights its
    /// thousandths stand for.
    pub fn restore(saved: &Vec<Saved>, weights: &Vec<u32>) -> (f: Frecency)
        requires
            weights@.len() == saved@.len(),
        ensures
            f@ == restored(notes(saved@), weights@),
    {
        let ghost v = notes(saved@);
        let mut f = Frecency::default();
        let mut i: usize = 0;
        assert(f@ =~= restored(v.take(0), weights@));
        while i < saved.len()
            invariant
                i <= saved@.len() == weights@.len(),
                v == notes(saved@),
                f@ == restored(v.take(i as int), weights@),
            decreases saved@.len() - i,
        {
            proof {
                assert(v.take(i + 1).drop_last() =~= v.take(i as int));
                assert(v.take(i + 1).last() == saved@[i as int]@);
            }
            f.record(
                saved[i].plugin.as_str(),
                saved[i].payload.as_str(),
                weights[i],
                saved[i].last,
            );
            i += 1;
        }
        assert(v.take(v.len() as int) =~= v);
        f
    }

    /// The history as it is kept on disk; `millis` are its weights in
    /// thousandths.
    pub fn saved(&self, millis: &Vec<u64>) -> (out: Vec<Saved>)
        requires
            millis@.len() == self@.len(),
        ensures
            notes(out@) == kept(self@, millis@),
    {
        let ghost want = kept(self@, millis@);
        let mut out: Vec<Saved> = Vec::new();
        let mut i: usize = 0;
        assert(notes(out@) =~= want.take(0));
        while i < self.entries.len()
            invariant
                i <= self.entries@.len() == self@.len(),
                millis@.len() == self@.len(),
                want == kept(self@, millis@),
                notes(out@) == want.take(i as int),
            decreases self.entries@.len() - i,
        {
            assert(self@[i as int] == self.entries@[i as int]@);
            let x = Saved {
                plugin: self.entries[i].plugin.clone(),
                milli: millis[i],
                last: self.entries[i].last,
                payload: self.entries[i].payload.clone(),
            };
            let ghost before = notes(out@);
            out.push(x);
            proof {
                assert(notes(out@) =~= before.push(x@));
                assert(want.take(i + 1) =~= want.take(i as int).push(want[i as int]));
            }
            i += 1;
        }
        assert(want.take(want.len() as int) =~= want);
        out
    }
}

/// The history that entries on disk make.
pub open spec fn restored(v: Seq<Note>, weights: Seq<u32>) -> Seq<Launch>
    decreases v.len(),
{
    if v.len() == 0 {
        Seq::empty()
    } else {
        let x = v.last();
        recorded(
            restored(v.drop_last(), weights),
            Launch {
                plugin: x.plugin,
                payload: x.payload,
                weight: weights[v.len() - 1],
                last: x.last,
            },
        )
    }
}

/// The history as entries on disk.
pub open spec fn kept(v: Seq<Launch>, millis: Seq<u64>) -> Seq<Note> {
    Seq::new(
        v.len(),
        |i: int|
            Note {
                plugin: v[i].plugin,
                milli: millis[i],
                last: v[i].last,
                payload: v[i].payload,
            },
    )
}

// ---- what holds of the history -----------------------------------------------------------------

/// A launch that was noted is there, with its weight and time; every other
/// entry is as it was.
pub proof fn law_recording_changes_one_entry(
    v: Seq<Launch>,
    x: Launch,
    plugin: Seq<char>,
    payload: Seq<char>,
)
    ensures
        launch_of(recorded(v, x), plugin, payload) == if is_of(x, plugin, payload) {
            Some(x)
        } else {
            launch_of(v, plugin, payload)
        },
        unique(v) ==> unique(recorded(v, x)),
{
    if unique(v) {
        lemma_recorded_unique(v, x);
    }
    let r = recorded(v, x);
    let k = place_of(v, x.plugin, x.payload);
    lemma_place_of(v, x.plugin, x.payload);
    let f = place_of(v, plugin, payload);
    lemma_place_of(v, plugin, payload);
    if is_of(x, plugin, payload) {
        assert forall|j: int| 0 <= j < k implies !is_of(#[trigger] r[j], plugin, payload) by {
            assert(r[j] == v[j]);
        }
        lemma_place_of_is(r, plugin, payload, k);
    } else {
        assert(f < v.len() ==> f != k);
        let g = if f < v.len() {
            f
        } else {
            r.len() as int
        };
        assert forall|j: int| 0 <= j < g implies !is_of(#[trigger] r[j], plugin, payload) by {
            if j != k {
                assert(r[j] == v[j]);
            }
        }
        lemma_place_of_is(r, plugin, payload, g);
    }
}

/// The best entries stand in the order of their faded weights, equal ones in
/// the order of their payloads, and none is lost.
pub proof fn law_the_best_come_first(v: Seq<Launch>, faded: Seq<u32>, bonuses: Seq<u8>)
    ensures
        order::in_order(best(v, faded, bonuses), by_weight()),
        best(v, faded, bonuses).to_multiset() == weighed(v, faded, bonuses).to_multiset(),
{
    order::law_ranking_orders(weighed(v, faded, bonuses), by_weight());
}

/// An entry is kept exactly if its faded weight is not too small.
pub proof fn law_pruning_drops_what_has_faded(v: Seq<Launch>, faded: Seq<u32>, i: int)
    requires
        unique(v),
        0 <= i < v.len(),
    ensures
        pruned(v, faded).contains(v[i]) == lasting(faded[i]),
        unique(pruned(v, faded)),
    decreases v.len(),
{
    lemma_pruned(v, faded);
    let t = v.drop_last();
    let before = pruned(t, faded);
    let r = pruned(v, faded);
    lemma_pruned(t, faded);
    if i < t.len() {
        assert forall|a: int, b: int| 0 <= a < b < t.len() implies !is_of(
            #[trigger] t[a],
            (#[trigger] t[b]).plugin,
            t[b].payload,
        ) by {
            assert(t[a] == v[a] && t[b] == v[b]);
        }
        law_pruning_drops_what_has_faded(t, faded, i);
        assert(t[i] == v[i]);
        assert(!is_of(v[i], v[v.len() - 1].plugin, v[v.len() - 1].payload));
        if before.contains(v[i]) {
            let k = choose|k: int| 0 <= k < before.len() && before[k] == v[i];
            assert(r[k] == v[i]);
        } else if r.contains(v[i]) {
            let k = choose|k: int| 0 <= k < r.len() && r[k] == v[i];
            if k < before.len() {
                assert(before[k] == v[i]);
            }
        }
    } else {
        if lasting(faded[i]) {
            assert(r[r.len() - 1] == v[i]);
        } else if r.contains(v[i]) {
            assert(before.contains(v[i]));
            let k = choose|k: int| 0 <= k < before.len() && before[k] == v[i];
            assert(t.contains(before[k]));
            let j = choose|j: int| 0 <= j < t.len() && t[j] == v[i];
            assert(v[j] == v[i]);
            assert(!is_of(v[j], v[i].plugin, v[i].payload));
        }
    }
}

/// An entry whose line reads back: its plugin is no comment and holds no tab,
/// its payload does not end the way a line does, and neither is empty or
/// spans lines.
pub open spec fn writable(x: Note) -> bool {
    &&& x.plugin.len() > 0 && x.plugin[0] != '#'
    &&& !x.plugin.contains('\t') && !x.plugin.contains('\n')
    &&& x.payload.len() > 0 && x.payload.last() != '\r'
    &&& !x.payload.contains('\n')
    &&& x.milli > 0
}

/// No two entries are of one thing.
pub open spec fn distinct(v: Seq<Note>) -> bool {
    forall|i: int, j: int|
        0 <= i < j < v.len() ==> !((#[trigger] v[i]).plugin == (#[trigger] v[j]).plugin
            && v[i].payload == v[j].payload)
}

proof fn lemma_at_tab(a: Seq<char>, b: Seq<char>)
    requires
        !a.contains('\t'),
    ensures
        at_tab(a.push('\t') + b) == Some((a, b)),
{
    let s = a.push('\t') + b;
    assert forall|i: int| 0 <= i < a.len() implies #[trigger] s[i] != '\t' by {
        assert(a.contains(a[i]));
    }
    assert(s[a.len() as int] == '\t');
    pieces::lemma_first_of_is(s, '\t', a.len() as int);
    assert(s.take(a.len() as int) =~= a);
    assert(s.skip(a.len() as int + 1) =~= b);
}

proof fn lemma_digits(n: u64)
    ensures
        whole(numbers::shown(n as nat)) == Some(n),
        !numbers::shown(n as nat).contains('\t'),
        !numbers::shown(n as nat).contains('\n'),
{
    numbers::law_shown_numbers_read_back(n as nat);
    numbers::lemma_shown(n as nat);
    let s = numbers::shown(n as nat);
    if s.contains('\t') {
        let k = choose|k: int| 0 <= k < s.len() && s[k] == '\t';
        assert(crate::text::is_digit(s[k]));
    }
    if s.contains('\n') {
        let k = choose|k: int| 0 <= k < s.len() && s[k] == '\n';
        assert(crate::text::is_digit(s[k]));
    }
}

proof fn lemma_line(x: Note)
    requires
        writable(x),
    ensures
        note_in(line_of(x)) == Some(x),
        !line_of(x).contains('\n'),
        line_of(x).len() > 0,
        line_of(x).last() != '\r',
{
    let m = numbers::shown(x.milli as nat);
    let l = numbers::shown(x.last as nat);
    lemma_digits(x.milli);
    lemma_digits(x.last);
    let tail = l.push('\t') + x.payload;
    let mid = m.push('\t') + tail;
    let line = line_of(x);
    assert(line =~= x.plugin.push('\t') + mid);
    lemma_at_tab(x.plugin, mid);
    lemma_at_tab(m, tail);
    lemma_at_tab(l, x.payload);
    assert(line[0] == x.plugin[0]);
    assert(line[line.len() - 1] == x.payload[x.payload.len() - 1]);
    if line.contains('\n') {
        let k = choose|k: int| 0 <= k < line.len() && line[k] == '\n';
        let (a, b, c) = (x.plugin.len() as int, m.len() as int, l.len() as int);
        if k < a {
            assert(x.plugin[k] == '\n');
        } else if k <= a {
        } else if k < a + 1 + b {
            assert(m[k - a - 1] == '\n');
        } else if k <= a + 1 + b {
        } else if k < a + b + c + 2 {
            assert(l[k - a - b - 2] == '\n');
        } else if k > a + b + c + 2 {
            assert(x.payload[k - a - b - c - 3] == '\n');
        }
    }
}

proof fn lemma_ended(first: Seq<char>, lines: Seq<Seq<char>>)
    ensures
        first.push('\n') + ended(lines) == pieces::joined(
            (seq![first] + lines).push(Seq::empty()),
            '\n',
        ),
    decreases lines.len(),
{
    let p = seq![first] + lines;
    let e = Seq::<char>::empty();
    if lines.len() == 0 {
        assert(p =~= seq![first]);
        assert(p.push(e).drop_last() =~= p);
        assert(pieces::joined(p, '\n') == first);
        assert(pieces::joined(p.push(e), '\n') == first.push('\n') + e);
        assert(first.push('\n') + ended(lines) =~= first.push('\n') + e);
    } else {
        let t = lines.drop_last();
        lemma_ended(first, t);
        let q = seq![first] + t;
        assert(p.drop_last() =~= q);
        assert(p.push(e).drop_last() =~= p);
        assert(q.push(e).drop_last() =~= q);
        let j = pieces::joined(q, '\n');
        assert(first.push('\n') + ended(t) =~= j.push('\n'));
        assert(pieces::joined(p, '\n') =~= j.push('\n') + lines.last());
        assert(pieces::joined(p.push(e), '\n') == pieces::joined(p, '\n').push('\n') + e);
        assert(first.push('\n') + ended(lines) =~= (j.push('\n') + lines.last()).push('\n') + e);
    }
}

proof fn lemma_lines_of_file(first: Seq<char>, lines: Seq<Seq<char>>)
    requires
        !first.contains('\n'),
        first.len() > 0 ==> first.last() != '\r',
        forall|i: int|
            0 <= i < lines.len() ==> !(#[trigger] lines[i]).contains('\n') && lines[i].len() > 0
                && lines[i].last() != '\r',
    ensures
        pieces::lines_of(first.push('\n') + ended(lines)) == seq![first] + lines,
{
    let e = Seq::<char>::empty();
    let p = seq![first] + lines;
    let all = p.push(e);
    lemma_ended(first, lines);
    assert forall|i: int| 0 <= i < all.len() implies !(#[trigger] all[i]).contains('\n') by {
        if i == 0 {
            assert(all[i] == first);
        } else if i <= lines.len() {
            assert(all[i] == lines[i - 1]);
        }
    }
    pieces::law_join_then_split(all, '\n');
    assert(all.drop_last() =~= p);
    let short = p.map_values(|l: Seq<char>| pieces::without_cr(l));
    assert forall|i: int| 0 <= i < p.len() implies #[trigger] short[i] == p[i] by {
        if i > 0 {
            assert(p[i] == lines[i - 1]);
        }
    }
    assert(short =~= p);
}

proof fn lemma_notes_read_back(first: Seq<char>, v: Seq<Note>, lines: Seq<Seq<char>>)
    requires
        note_in(first) is None,
        distinct(v),
        forall|i: int| 0 <= i < v.len() ==> writable(#[trigger] v[i]),
        lines == v.map_values(|x: Note| line_of(x)),
    ensures
        notes_in(seq![first] + lines) == v,
    decreases v.len(),
{
    let all = seq![first] + lines;
    reveal_with_fuel(notes_in, 2);
    if v.len() == 0 {
        assert(all.drop_last() =~= Seq::empty());
        assert(notes_in(all) =~= v);
    } else {
        let t = v.drop_last();
        let x = v.last();
        let less = t.map_values(|x: Note| line_of(x));
        assert forall|i: int, j: int| 0 <= i < j < t.len() implies !((#[trigger] t[i]).plugin == (
        #[trigger] t[j]).plugin && t[i].payload == t[j].payload) by {
            assert(t[i] == v[i] && t[j] == v[j]);
        }
        assert forall|i: int| 0 <= i < t.len() implies writable(#[trigger] t[i]) by {
            assert(t[i] == v[i]);
        }
        lemma_notes_read_back(first, t, less);
        assert(all.drop_last() =~= seq![first] + less);
        assert(all.last() == line_of(x));
        assert(writable(v[v.len() - 1]));
        lemma_line(x);
        assert forall|j: int| 0 <= j < t.len() implies !((#[trigger] t[j]).plugin == x.plugin
            && t[j].payload == x.payload) by {
            assert(t[j] == v[j]);
            assert(v[v.len() - 1] == x);
        }
        lemma_note_at_is(t, x.plugin, x.payload, t.len() as int);
        assert(t.push(x) =~= v);
    }
}

/// Entries in the order of their lines.
pub open spec fn by_line() -> spec_fn(Note) -> Key {
    |x: Note| Key { number: 0, text: line_of(x) }
}

proof fn lemma_ranked_notes(v: Seq<Note>)
    requires
        distinct(v),
        forall|i: int| 0 <= i < v.len() ==> writable(#[trigger] v[i]),
    ensures
        distinct(order::ranked(v, by_line())),
        forall|i: int|
            0 <= i < order::ranked(v, by_line()).len() ==> writable(
                #[trigger] order::ranked(v, by_line())[i],
            ),
{
    broadcast use vstd::seq_lib::group_to_multiset_ensures;

    let r = order::ranked(v, by_line());
    order::law_ranking_orders(v, by_line());
    assert forall|i: int| 0 <= i < r.len() implies v.contains(#[trigger] r[i]) by {
        assert(r.contains(r[i]));
        assert(r.to_multiset().count(r[i]) > 0);
    }
    assert forall|i: int| 0 <= i < r.len() implies writable(#[trigger] r[i]) by {
        let k = choose|k: int| 0 <= k < v.len() && v[k] == r[i];
        assert(writable(v[k]));
    }
    v.lemma_multiset_has_no_duplicates();
    r.lemma_multiset_has_no_duplicates_conv();
    assert forall|i: int, j: int| 0 <= i < j < r.len() implies !((#[trigger] r[i]).plugin == (
    #[trigger] r[j]).plugin && r[i].payload == r[j].payload) by {
        let a = choose|a: int| 0 <= a < v.len() && v[a] == r[i];
        let b = choose|b: int| 0 <= b < v.len() && v[b] == r[j];
        assert(r[i] != r[j]);
        if a < b {
            assert(!(v[a].plugin == v[b].plugin && v[a].payload == v[b].payload));
        } else {
            assert(!(v[b].plugin == v[a].plugin && v[b].payload == v[a].payload));
        }
    }
}

/// What was written reads back, in the order of its lines.
pub proof fn law_history_reads_back(v: Seq<Note>)
    requires
        distinct(v),
        forall|i: int| 0 <= i < v.len() ==> writable(#[trigger] v[i]),
    ensures
        notes_in(pieces::lines_of(file_of(v))) == order::ranked(v, by_line()),
{
    let r = order::ranked(v, by_line());
    let f = |x: Note| line_of(x);
    let lines = r.map_values(f);
    order::lemma_ranked_maps(v, f, by_line(), order::by_text());
    lemma_ranked_notes(v);
    assert forall|i: int| 0 <= i < lines.len() implies !(#[trigger] lines[i]).contains('\n')
        && lines[i].len() > 0 && lines[i].last() != '\r' by {
        assert(writable(r[i]));
        lemma_line(r[i]);
    }
    lemma_header();
    lemma_lines_of_file(HEADER@, lines);
    lemma_notes_read_back(HEADER@, r, lines);
}

proof fn lemma_header()
    ensures
        HEADER@.len() > 0,
        HEADER@[0] == '#',
        HEADER@.last() != '\r',
        !HEADER@.contains('\n'),
{
    reveal_strlit("# apex frecency - machine-local launch history, safe to delete");
}

} // verus!
