use rand::Rng;
use vstd::prelude::*;

verus! {

/// The festive banner shown above the cards.
#[derive(Debug, Default, Clone, Copy, PartialEq, Eq)]
pub struct MerryXmas;

impl MerryXmas {
    #[must_use]
    pub fn new() -> (r: Self) {
        MerryXmas
    }

    /// The banner drawn in block characters.
    #[must_use]
    pub fn as_str(&self) -> (r: &'static str) {
        "▄▄▄  ▄▄▄                                                    ▄▄▄  ▄▄▄                               \n███  ███                                                     ██▄▄██                                \n████████   ▄████▄    ██▄████   ██▄████  ▀██  ███              ████    ████▄██▄   ▄█████▄  ▄▄█████▄ \n██ ██ ██  ██▄▄▄▄██   ██▀       ██▀       ██▄ ██                ██     ██ ██ ██   ▀ ▄▄▄██  ██▄▄▄▄ ▀ \n██ ▀▀ ██  ██▀▀▀▀▀▀   ██        ██         ████▀               ████    ██ ██ ██  ▄██▀▀▀██   ▀▀▀▀██▄ \n██    ██  ▀██▄▄▄▄█   ██        ██          ███               ██  ██   ██ ██ ██  ██▄▄▄███  █▄▄▄▄▄██ \n▀▀    ▀▀    ▀▀▀▀▀    ▀▀        ▀▀          ██               ▀▀▀  ▀▀▀  ▀▀ ▀▀ ▀▀   ▀▀▀▀ ▀▀   ▀▀▀▀▀▀  \n                                         ███                                                       \n"
    }
}

/// The panel that tells how to use the keys.
#[derive(Debug, Default, Clone, Copy, PartialEq, Eq)]
pub struct Help;

impl Help {
    #[must_use]
    pub fn new() -> (r: Self) {
        Help
    }
}

/// Where a presentation stands.
#[derive(Debug, Clone, Copy, PartialEq, Eq, Structural)]
pub enum Phase {
    /// No pair was revealed yet.
    NotStarted,
    /// At least one pair is shown.
    Presenting,
    /// An advance found no pair left.
    Exhausted,
    /// The user quit.
    Quit,
}

/// The abstract state of a presentation.
pub struct Presentation {
    pub started: bool,
    /// The pair sequence, in the order it is revealed.
    pub data: Seq<(Seq<char>, Seq<char>)>,
    /// How many pairs were revealed.
    pub revealed: nat,
    pub quit: bool,
    pub exhausted: bool,
    /// The pair on display.
    pub from: Seq<char>,
    pub to: Seq<char>,
}

/// The state before any advance: a hint on how to begin is on display.
pub open spec fn initial(data: Seq<(Seq<char>, Seq<char>)>) -> Presentation {
    Presentation {
        started: false,
        data,
        revealed: 0,
        quit: false,
        exhausted: false,
        from: "Press <SPC>"@,
        to: "start"@,
    }
}

/// One advance: reveal the next pair, or, with none left, show the exit hint.
/// After a quit nothing changes.
pub open spec fn advance(v: Presentation) -> Presentation {
    if v.quit {
        v
    } else if v.revealed < v.data.len() {
        Presentation {
            revealed: v.revealed + 1,
            from: v.data[v.revealed as int].0,
            to: v.data[v.revealed as int].1,
            ..v
        }
    } else {
        Presentation { exhausted: true, from: "Press <Q>"@, to: "exit"@, ..v }
    }
}

/// `k` advances in a row.
pub open spec fn advance_n(v: Presentation, k: nat) -> Presentation
    decreases k,
{
    if k == 0 {
        v
    } else {
        advance(advance_n(v, (k - 1) as nat))
    }
}

pub open spec fn quit_of(v: Presentation) -> Presentation {
    Presentation { quit: true, ..v }
}

pub open spec fn phase_of(v: Presentation) -> Phase {
    if v.quit {
        Phase::Quit
    } else if v.exhausted {
        Phase::Exhausted
    } else if v.revealed > 0 {
        Phase::Presenting
    } else {
        Phase::NotStarted
    }
}

pub open spec fn unrevealed(v: Presentation) -> int {
    v.data.len() - v.revealed
}

pub open spec fn pair_views(data: Seq<(String, String)>) -> Seq<(Seq<char>, Seq<char>)> {
    data.map_values(|p: (String, String)| (p.0@, p.1@))
}

/// The state of a presentation: the pair sequence with a cursor on the next
/// pair to reveal, and the pair on display.
pub struct PairsState {
    started: bool,
    data: Vec<(String, String)>,
    next: usize,
    quit: bool,
    exhausted: bool,
    from: String,
    to: String,
}

impl View for PairsState {
    type V = Presentation;

    closed spec fn view(&self) -> Presentation {
        Presentation {
            started: self.started,
            data: pair_views(self.data@),
            revealed: self.next as nat,
            quit: self.quit,
            exhausted: self.exhausted,
            from: self.from@,
            to: self.to@,
        }
    }
}

impl PairsState {
    #[verifier::type_invariant]
    spec fn cursor_in_range(&self) -> bool {
        self.next <= self.data@.len()
    }

    #[must_use]
    pub fn new(data: Vec<(String, String)>) -> (r: Self)
        ensures
            r@ == initial(pair_views(data@)),
    {
        PairsState {
            started: false,
            data,
            next: 0,
            quit: false,
            exhausted: false,
            from: String::from_str("Press <SPC>"),
            to: String::from_str("start"),
        }
    }

    pub fn start(&mut self)
        ensures
            final(self)@ == (Presentation { started: true, ..old(self)@ }),
    {
        proof {
            use_type_invariant(&*self);
        }
        self.started = true;
    }

    /// Advance: show the next pair, or the exit hint once none is left.
    pub fn tick(&mut self)
        ensures
            final(self)@ == advance(old(self)@),
    {
        proof {
            use_type_invariant(&*self);
        }
        if self.quit {
            return;
        }
        if self.next < self.data.len() {
            let from = self.data[self.next].0.clone();
            let to = self.data[self.next].1.clone();
            self.from = from;
            self.to = to;
            self.next = self.next + 1;
        } else {
            self.exhausted = true;
            self.from = String::from_str("Press <Q>");
            self.to = String::from_str("exit");
        }
    }

    /// End the presentation; the pairs not yet revealed stay unrevealed.
    pub fn quit(&mut self)
        ensures
            final(self)@ == quit_of(old(self)@),
    {
        proof {
            use_type_invariant(&*self);
        }
        self.quit = true;
    }

    pub fn phase(&self) -> (r: Phase)
        ensures
            r == phase_of(self@),
    {
        if self.quit {
            Phase::Quit
        } else if self.exhausted {
            Phase::Exhausted
        } else if self.next > 0 {
            Phase::Presenting
        } else {
            Phase::NotStarted
        }
    }

    /// How many pairs are still to be revealed.
    pub fn remaining(&self) -> (r: usize)
        ensures
            r == unrevealed(self@),
    {
        proof {
            use_type_invariant(self);
        }
        self.data.len() - self.next
    }

    pub fn is_started(&self) -> (r: bool)
        ensures
            r == self@.started,
    {
        self.started
    }

    pub fn from(&self) -> (r: &str)
        ensures
            r@ == self@.from,
    {
        self.from.as_str()
    }

    pub fn to(&self) -> (r: &str)
        ensures
            r@ == self@.to,
    {
        self.to.as_str()
    }
}

proof fn lemma_advance_n_from_start(data: Seq<(Seq<char>, Seq<char>)>, k: nat)
    ensures
        ({
            let v = advance_n(initial(data), k);
            &&& v.data == data
            &&& !v.quit
            &&& v.revealed == if k <= data.len() { k } else { data.len() }
            &&& v.exhausted == (k > data.len())
            &&& 0 < k <= data.len() ==> v.from == data[k - 1].0 && v.to == data[k - 1].1
            &&& k > data.len() ==> v.from == "Press <Q>"@ && v.to == "exit"@
        }),
    decreases k,
{
    if k > 0 {
        lemma_advance_n_from_start(data, (k - 1) as nat);
    }
}

/// Presentation never reveals more pairs than the sequence holds: after `k`
/// advances from the start `min(k, n)` pairs are revealed; after `n` advances
/// none is left, and each further advance reveals nothing new: the state is
/// exhausted and shows the exit hint.
pub proof fn presentation_never_overruns(data: Seq<(Seq<char>, Seq<char>)>, k: nat)
    ensures
        advance_n(initial(data), k).revealed == if k <= data.len() { k } else { data.len() },
        k >= data.len() ==> unrevealed(advance_n(initial(data), k)) == 0,
        k > data.len() ==> phase_of(advance_n(initial(data), k)) == Phase::Exhausted,
        k > data.len() ==> advance_n(initial(data), k).from == "Press <Q>"@,
        k > data.len() ==> advance_n(initial(data), k).to == "exit"@,
        k >= data.len() ==> advance_n(initial(data), k + 1).revealed == advance_n(
            initial(data),
            k,
        ).revealed,
{
    lemma_advance_n_from_start(data, k);
    lemma_advance_n_from_start(data, k + 1);
}

/// Quitting after `k < n` advances leaves `n - k` pairs unrevealed, ends the
/// presentation, and no later advance reveals anything.
pub proof fn quitting_leaves_rest_unrevealed(data: Seq<(Seq<char>, Seq<char>)>, k: nat)
    requires
        k < data.len(),
    ensures
        unrevealed(quit_of(advance_n(initial(data), k))) == data.len() - k,
        phase_of(quit_of(advance_n(initial(data), k))) == Phase::Quit,
        advance(quit_of(advance_n(initial(data), k))) == quit_of(advance_n(initial(data), k)),
{
    lemma_advance_n_from_start(data, k);
}

/// Rows of the big text that shows a pair.
pub const BIG_TEXT_ROWS: u16 = 11;

/// Blank rows above and below the big text.
pub const TEXT_PADDING: u16 = 3;

/// The height the pair text wants.
pub open spec fn text_height() -> u16 {
    (BIG_TEXT_ROWS + 2 * TEXT_PADDING) as u16
}

/// The pair on display, drawn in big text.
#[derive(Debug, Default, Clone, PartialEq, Eq)]
pub struct Pairs;

impl Pairs {
    #[must_use]
    pub fn new() -> (r: Self) {
        Pairs
    }

    /// The rectangle `(x, y, width, height)` the pair text takes in an area:
    /// the full width, as many rows as the text wants (or the area has),
    /// centred vertically.
    pub fn text_area(&self, x: u16, y: u16, width: u16, height: u16) -> (r: (u16, u16, u16, u16))
        requires
            y + height <= u16::MAX,
        ensures
            ({
                let h = if height < text_height() { height } else { text_height() };
                r == (x, (y + (height - h) / 2) as u16, width, h)
            }),
    {
        let wanted: u16 = BIG_TEXT_ROWS + TEXT_PADDING * 2;
        let h: u16 = if height < wanted { height } else { wanted };
        (x, y + (height - h) / 2, width, h)
    }
}

/// Relies on rand's `Rng::random_range` with the thread-local generator
/// `rand::rng()`: a number drawn from `0..n`, which panics only when the
/// range is empty.
#[verifier::external_body]
fn random_below(n: usize) -> (r: usize)
    requires
        n > 0,
    ensures
        r < n,
{
    rand::rng().random_range(0..n)
}

/// Relies on rand's `Rng::random_ratio` with the thread-local generator
/// `rand::rng()`: `true` with probability `numerator / denominator`, always
/// when the two are equal and never when `numerator` is 0; it panics when
/// `denominator` is 0 or smaller than `numerator`.
#[verifier::external_body]
fn chance(numerator: u32, denominator: u32) -> (r: bool)
    requires
        0 < denominator,
        numerator <= denominator,
    ensures
        numerator == 0 ==> !r,
        numerator == denominator ==> r,
{
    rand::rng().random_ratio(numerator, denominator)
}

/// A flake respawns on a tick with probability `TWINKLE_NUMERATOR / TWINKLE_DENOMINATOR`.
pub const TWINKLE_NUMERATOR: u32 = 3;

pub const TWINKLE_DENOMINATOR: u32 = 10;

/// The abstract state of a snow field.
pub struct Snow {
    pub width: u16,
    pub height: u16,
    /// How many flakes the field holds once it has a size.
    pub count: usize,
    /// Each flake's column and row.
    pub flakes: Seq<(u16, u16)>,
}

/// Every flake lies inside the field.
pub open spec fn flakes_inside(flakes: Seq<(u16, u16)>, width: u16, height: u16) -> bool {
    forall|i: int| #![trigger flakes[i]] 0 <= i < flakes.len() ==> flakes[i].0 < width && flakes[i].1 < height
}

/// A flake one row further down, back at the top past the last row.
pub open spec fn fall(flake: (u16, u16), height: u16) -> (u16, u16) {
    (flake.0, ((flake.1 + 1) % (height as int)) as u16)
}

/// The cells, offset by the area's corner, of the flakes that lie inside an
/// area of the given size, in the order of the flakes.
pub open spec fn visible(flakes: Seq<(u16, u16)>, x: u16, y: u16, width: u16, height: u16) -> Seq<(u16, u16)>
    decreases flakes.len(),
{
    if flakes.len() == 0 {
        seq![]
    } else {
        let rest = visible(flakes.drop_last(), x, y, width, height);
        let f = flakes.last();
        if f.0 < width && f.1 < height {
            rest.push(((x + f.0) as u16, (y + f.1) as u16))
        } else {
            rest
        }
    }
}

/// A decorative background of falling snow flakes.
#[derive(Debug)]
pub struct SnowField {
    width: u16,
    height: u16,
    count: usize,
    flakes: Vec<(u16, u16)>,
}

impl View for SnowField {
    type V = Snow;

    closed spec fn view(&self) -> Snow {
        Snow { width: self.width, height: self.height, count: self.count, flakes: self.flakes@ }
    }
}

impl SnowField {
    #[verifier::type_invariant]
    spec fn inside(&self) -> bool {
        flakes_inside(self.flakes@, self.width, self.height)
    }

    /// An empty field of no size that holds `count` flakes once it is sized.
    #[must_use]
    pub fn new(count: usize) -> (r: Self)
        ensures
            r@ == (Snow { width: 0, height: 0, count, flakes: seq![] }),
    {
        SnowField { width: 0, height: 0, count, flakes: Vec::new() }
    }

    /// Give the field a size and scatter its flakes over it anew.
    pub fn set_size(&mut self, width: u16, height: u16)
        requires
            old(self)@.count == 0 || (width > 0 && height > 0),
        ensures
            final(self)@.width == width,
            final(self)@.height == height,
            final(self)@.count == old(self)@.count,
            final(self)@.flakes.len() == old(self)@.count,
            flakes_inside(final(self)@.flakes, width, height),
    {
        let count = self.count;
        let mut flakes: Vec<(u16, u16)> = Vec::new();
        let mut i: usize = 0;
        while i < count
            invariant
                count == 0 || (width > 0 && height > 0),
                0 <= i <= count,
                flakes@.len() == i,
                flakes_inside(flakes@, width, height),
            decreases count - i,
        {
            let x = random_below(width as usize) as u16;
            let y = random_below(height as usize) as u16;
            flakes.push((x, y));
            i = i + 1;
        }
        *self = SnowField { width, height, count, flakes };
    }

    /// Move every flake down a row, wrapping at the bottom; now and then one
    /// flake, picked at random, respawns at a random place.
    pub fn tick(&mut self)
        ensures
            final(self)@.width == old(self)@.width,
            final(self)@.height == old(self)@.height,
            final(self)@.count == old(self)@.count,
            final(self)@.flakes.len() == old(self)@.flakes.len(),
            flakes_inside(final(self)@.flakes, final(self)@.width, final(self)@.height),
            forall|j: int, k: int|
                0 <= j < k < old(self)@.flakes.len() ==> final(self)@.flakes[j] == fall(
                    old(self)@.flakes[j],
                    old(self)@.height,
                ) || final(self)@.flakes[k] == fall(old(self)@.flakes[k], old(self)@.height),
    {
        proof {
            use_type_invariant(&*self);
        }
        let width = self.width;
        let height = self.height;
        let n = self.flakes.len();
        let mut moved: Vec<(u16, u16)> = Vec::new();
        let mut i: usize = 0;
        while i < n
            invariant
                n == self.flakes@.len(),
                height == self.height,
                width == self.width,
                flakes_inside(self.flakes@, width, height),
                0 <= i <= n,
                moved@.len() == i,
                flakes_inside(moved@, width, height),
                forall|j: int| 0 <= j < i ==> #[trigger] moved@[j] == fall(self.flakes@[j], height),
            decreases n - i,
        {
            let (x, y) = self.flakes[i];
            assert(y < height);
            let f = (x, (y + 1) % height);
            moved.push(f);
            i = i + 1;
        }
        if n > 0 && chance(TWINKLE_NUMERATOR, TWINKLE_DENOMINATOR) {
            assert(self.flakes@[0].0 < width && self.flakes@[0].1 < height);
            let k = random_below(n);
            let x = random_below(width as usize) as u16;
            let y = random_below(height as usize) as u16;
            moved.set(k, (x, y));
        }
        *self = SnowField { width, height, count: self.count, flakes: moved };
    }

    /// The cells to draw a flake in, for an area whose top left corner is
    /// `(area_x, area_y)`: the flakes that fit inside the area, offset by it.
    pub fn render(&self, area_x: u16, area_y: u16, area_width: u16, area_height: u16) -> (r: Vec<(u16, u16)>)
        requires
            area_x + area_width <= u16::MAX,
            area_y + area_height <= u16::MAX,
        ensures
            r@ == visible(self@.flakes, area_x, area_y, area_width, area_height),
    {
        let n = self.flakes.len();
        let mut cells: Vec<(u16, u16)> = Vec::new();
        let mut i: usize = 0;
        while i < n
            invariant
                n == self.flakes@.len(),
                area_x + area_width <= u16::MAX,
                area_y + area_height <= u16::MAX,
                0 <= i <= n,
                cells@ == visible(self.flakes@.take(i as int), area_x, area_y, area_width, area_height),
            decreases n - i,
        {
            let (x, y) = self.flakes[i];
            proof {
                assert(self.flakes@.take(i + 1).drop_last() =~= self.flakes@.take(i as int));
                assert(self.flakes@.take(i + 1).last() == self.flakes@[i as int]);
            }
            if x < area_width && y < area_height {
                cells.push((area_x + x, area_y + y));
            }
            i = i + 1;
        }
        assert(self.flakes@.take(n as int) =~= self.flakes@);
        cells
    }
}

} // verus!
