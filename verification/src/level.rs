//! Level descriptions: the text `H-W-<placement>*`, the numbering of the
//! boundary points, and the address that carries the text as its `q`
//! parameter.

use crate::board::{Color, Placement, Point, MAX_SIDE};
use vstd::prelude::*;

verus! {

/// No boundary index is this large on a grid of at most `MAX_SIDE` a side.
pub const INDEX_LIMIT: usize = 100_000;

/// The boundary point with the given index, counted around the grid: down
/// the left ring, along the bottom ring, up the right ring and back along
/// the top ring. There is none where the index is past the last ring or a
/// side of the grid is above `MAX_SIDE`.
pub open spec fn spec_boundary_point(h: int, w: int, index: int) -> Option<Point> {
    if h < 0 || w < 0 || h > MAX_SIDE || w > MAX_SIDE || index < 0 {
        None
    } else if index < h + 1 {
        Some(Point { y: index as i32, x: -1i32 })
    } else if index < (h + 1) + (w + 1) {
        Some(Point { y: (h + 1) as i32, x: (index - (h + 1)) as i32 })
    } else if index < 2 * (h + 1) + (w + 1) {
        Some(Point { y: (h - (index - (h + 1) - (w + 1))) as i32, x: (w + 1) as i32 })
    } else if index < 2 * (h + 1) + 2 * (w + 1) {
        Some(Point { y: -1i32, x: (w - (index - 2 * (h + 1) - (w + 1))) as i32 })
    } else {
        None
    }
}

pub fn boundary_point(h: usize, w: usize, index: usize) -> (at: Option<Point>)
    ensures
        at == spec_boundary_point(h as int, w as int, index as int),
        at matches Some(p) ==> -1 <= p.y <= h + 1 && -1 <= p.x <= w + 1,
{
    if h > MAX_SIDE || w > MAX_SIDE {
        return None;
    }
    if index < h + 1 {
        return Some(Point { y: index as i32, x: -1 });
    }
    let i: usize = index - (h + 1);
    if i < w + 1 {
        return Some(Point { y: (h + 1) as i32, x: i as i32 });
    }
    let i: usize = i - (w + 1);
    if i < h + 1 {
        return Some(Point { y: (h - i) as i32, x: (w + 1) as i32 });
    }
    let i: usize = i - (h + 1);
    if i < w + 1 {
        return Some(Point { y: -1, x: (w - i) as i32 });
    }
    None
}

/// The value of a run of decimal digits.
pub open spec fn spec_digits_value(s: Seq<u8>) -> nat
    decreases s.len(),
{
    if s.len() == 0 {
        0
    } else {
        spec_digits_value(s.drop_last()) * 10 + (s.last() - 48) as nat
    }
}

pub open spec fn spec_all_digits(s: Seq<u8>) -> bool {
    forall|i: int| 0 <= i < s.len() ==> 48 <= #[trigger] s[i] <= 57
}

/// The number that a token spells: one or more decimal digits, after a `+`
/// or nothing.
pub open spec fn spec_number(s: Seq<u8>) -> Option<nat> {
    let body = if s.len() > 0 && s[0] == 43 {
        s.subrange(1, s.len() as int)
    } else {
        s
    };
    if body.len() > 0 && spec_all_digits(body) {
        Some(spec_digits_value(body))
    } else {
        None
    }
}

/// The number that a token spells, where it is at most `limit`.
pub open spec fn spec_number_up_to(s: Seq<u8>, limit: nat) -> Option<nat> {
    match spec_number(s) {
        Some(v) => if v <= limit {
            Some(v)
        } else {
            None
        },
        None => None,
    }
}

proof fn lemma_value_grows(s: Seq<u8>, k: int)
    requires
        0 <= k <= s.len(),
    ensures
        spec_digits_value(s.take(k)) <= spec_digits_value(s),
    decreases s.len(),
{
    if k == s.len() {
        assert(s.take(k) =~= s);
    } else {
        lemma_value_grows(s.drop_last(), k);
        assert(s.drop_last().take(k) =~= s.take(k));
    }
}

/// Reads the number that `text[from..to]` spells, where it is at most
/// `limit`.
pub fn parse_number(text: &Vec<u8>, from: usize, to: usize, limit: usize) -> (number: Option<usize>)
    requires
        from <= to <= text@.len(),
        limit <= 100_000_000,
    ensures
        match number {
            Some(v) => spec_number_up_to(text@.subrange(from as int, to as int), limit as nat)
                == Some(v as nat),
            None => spec_number_up_to(text@.subrange(from as int, to as int), limit as nat)
                is None,
        },
{
    let ghost s = text@.subrange(from as int, to as int);
    let mut i: usize = from;
    if i < to && text[i] == 43u8 {
        i += 1;
    }
    let start: usize = i;
    let ghost body = text@.subrange(start as int, to as int);
    assert(body =~= (if s.len() > 0 && s[0] == 43 {
        s.subrange(1, s.len() as int)
    } else {
        s
    }));
    if i >= to {
        return None;
    }
    let mut acc: usize = 0;
    while i < to
        invariant
            start <= i <= to <= text@.len(),
            limit <= 100_000_000,
            acc <= limit,
            body == text@.subrange(start as int, to as int),
            body.len() > 0,
            s == text@.subrange(from as int, to as int),
            spec_number(s) == (if spec_all_digits(body) {
                Some(spec_digits_value(body))
            } else {
                None
            }),
            spec_all_digits(text@.subrange(start as int, i as int)),
            acc == spec_digits_value(text@.subrange(start as int, i as int)),
        decreases to - i,
    {
        let b: u8 = text[i];
        if b < 48 || b > 57 {
            assert(body[i - start] == b);
            return None;
        }
        let ghost shorter = text@.subrange(start as int, i as int);
        let ghost longer = text@.subrange(start as int, i + 1);
        assert(longer.drop_last() =~= shorter);
        assert(longer.last() == b);
        acc = acc * 10 + (b - 48) as usize;
        if acc > limit {
            proof {
                if spec_all_digits(body) {
                    lemma_value_grows(body, i + 1 - start);
                    assert(body.take(i + 1 - start) =~= longer);
                }
            }
            return None;
        }
        i += 1;
    }
    assert(body =~= text@.subrange(start as int, i as int));
    Some(acc)
}

/// Where the token that starts at `from` ends: at the next `-`, or at the
/// end of the text.
pub open spec fn spec_token_end(s: Seq<u8>, from: int) -> int
    decreases s.len() - from,
{
    if from < 0 || from >= s.len() || s[from] == 45 {
        from
    } else {
        spec_token_end(s, from + 1)
    }
}

pub fn token_end(text: &Vec<u8>, from: usize) -> (end: usize)
    requires
        from <= text@.len(),
    ensures
        end == spec_token_end(text@, from as int),
        from <= end <= text@.len(),
{
    let mut i: usize = from;
    while i < text.len() && text[i] != 45u8
        invariant
            from <= i <= text@.len(),
            spec_token_end(text@, from as int) == spec_token_end(text@, i as int),
        decreases text@.len() - i,
    {
        i += 1;
    }
    i
}

/// The colour that a letter stands for, and whether the letter is a
/// capital, which marks a beam; a small letter marks a target.
pub open spec fn spec_letter(b: u8) -> Option<(Color, bool)> {
    if b == 82 {
        Some((Color::Red, true))
    } else if b == 89 {
        Some((Color::Yellow, true))
    } else if b == 71 {
        Some((Color::Green, true))
    } else if b == 66 {
        Some((Color::Blue, true))
    } else if b == 80 {
        Some((Color::Purple, true))
    } else if b == 114 {
        Some((Color::Red, false))
    } else if b == 121 {
        Some((Color::Yellow, false))
    } else if b == 103 {
        Some((Color::Green, false))
    } else if b == 98 {
        Some((Color::Blue, false))
    } else if b == 112 {
        Some((Color::Purple, false))
    } else {
        None
    }
}

pub fn letter(b: u8) -> (read: Option<(Color, bool)>)
    ensures
        read == spec_letter(b),
{
    if b == 82 {
        Some((Color::Red, true))
    } else if b == 89 {
        Some((Color::Yellow, true))
    } else if b == 71 {
        Some((Color::Green, true))
    } else if b == 66 {
        Some((Color::Blue, true))
    } else if b == 80 {
        Some((Color::Purple, true))
    } else if b == 114 {
        Some((Color::Red, false))
    } else if b == 121 {
        Some((Color::Yellow, false))
    } else if b == 103 {
        Some((Color::Green, false))
    } else if b == 98 {
        Some((Color::Blue, false))
    } else if b == 112 {
        Some((Color::Purple, false))
    } else {
        None
    }
}

/// What a placement token says on a grid of `h` by `w`: whether it places a
/// beam, and the boundary point and colour.
pub open spec fn spec_placement(tok: Seq<u8>, h: int, w: int) -> Option<(bool, Placement)> {
    if tok.len() == 0 {
        None
    } else {
        match (
            spec_letter(tok[0]),
            spec_number_up_to(tok.subrange(1, tok.len() as int), INDEX_LIMIT as nat),
        ) {
            (Some((color, is_beam)), Some(index)) => match spec_boundary_point(h, w, index as int) {
                Some(at) => Some((is_beam, Placement { at, color })),
                None => None,
            },
            _ => None,
        }
    }
}

pub fn parse_placement(text: &Vec<u8>, from: usize, to: usize, h: usize, w: usize) -> (read: Option<
    (bool, Placement),
>)
    requires
        from <= to <= text@.len(),
    ensures
        read == spec_placement(text@.subrange(from as int, to as int), h as int, w as int),
        read matches Some((_, pl)) ==> -1 <= pl.at.y <= h + 1 && -1 <= pl.at.x <= w + 1,
{
    let ghost tok = text@.subrange(from as int, to as int);
    if from >= to {
        return None;
    }
    assert(tok[0] == text@[from as int]);
    assert(tok.subrange(1, tok.len() as int) =~= text@.subrange(from + 1, to as int));
    let (color, is_beam) = match letter(text[from]) {
        Some(read) => read,
        None => {
            return None;
        },
    };
    let index: usize = match parse_number(text, from + 1, to, INDEX_LIMIT) {
        Some(index) => index,
        None => {
            return None;
        },
    };
    match boundary_point(h, w, index) {
        Some(at) => Some((is_beam, Placement { at, color })),
        None => None,
    }
}

/// The beams and the targets that the placement tokens after position `at`
/// add to those already read; `at` is the end of the text or the `-` before
/// the next token.
pub open spec fn spec_placements(
    s: Seq<u8>,
    at: int,
    h: int,
    w: int,
    beams: Seq<Placement>,
    targets: Seq<Placement>,
) -> Option<(Seq<Placement>, Seq<Placement>)>
    decreases s.len() - at,
{
    if at < 0 || at >= s.len() {
        Some((beams, targets))
    } else {
        let end = spec_token_end(s, at + 1);
        if end <= at || end > s.len() {
            None
        } else {
            match spec_placement(s.subrange(at + 1, end), h, w) {
                Some((is_beam, pl)) => if is_beam {
                    spec_placements(s, end, h, w, beams.push(pl), targets)
                } else {
                    spec_placements(s, end, h, w, beams, targets.push(pl))
                },
                None => None,
            }
        }
    }
}

/// What a level description says.
pub ghost struct LevelPlan {
    pub height: nat,
    pub width: nat,
    pub beams: Seq<Placement>,
    pub targets: Seq<Placement>,
}

/// The level that a text describes: the height, the width, and then the
/// placements, each a token between `-` signs. There is none where the
/// height or the width is missing, is no number or is not between 1 and
/// `MAX_SIDE`, or where a placement is no letter of a colour followed by
/// the index of a boundary point.
pub open spec fn spec_parse_level(s: Seq<u8>) -> Option<LevelPlan> {
    let e0 = spec_token_end(s, 0);
    let e1 = spec_token_end(s, e0 + 1);
    if e0 >= s.len() {
        None
    } else {
        match (
            spec_number_up_to(s.subrange(0, e0), MAX_SIDE as nat),
            spec_number_up_to(s.subrange(e0 + 1, e1), MAX_SIDE as nat),
        ) {
            (Some(h), Some(w)) => if h >= 1 && w >= 1 {
                match spec_placements(s, e1, h as int, w as int, Seq::empty(), Seq::empty()) {
                    Some((beams, targets)) => Some(
                        LevelPlan { height: h, width: w, beams, targets },
                    ),
                    None => None,
                }
            } else {
                None
            },
            _ => None,
        }
    }
}

/// A level: the sides of the grid, and where the beams and targets are.
pub struct Level {
    pub height: usize,
    pub width: usize,
    pub beams: Vec<Placement>,
    pub targets: Vec<Placement>,
}

impl View for Level {
    type V = LevelPlan;

    open spec fn view(&self) -> LevelPlan {
        LevelPlan {
            height: self.height as nat,
            width: self.width as nat,
            beams: self.beams@,
            targets: self.targets@,
        }
    }
}

impl Level {
    /// The sides are between 1 and `MAX_SIDE`, and every beam and target is
    /// inside the margin around the grid.
    pub open spec fn wf(self) -> bool {
        &&& 1 <= self.height <= MAX_SIDE
        &&& 1 <= self.width <= MAX_SIDE
        &&& forall|i: int|
            0 <= i < self.beams@.len() ==> -1 <= (#[trigger] self.beams@[i]).at.y <= self.height
                + 1 && -1 <= self.beams@[i].at.x <= self.width + 1
        &&& forall|i: int|
            0 <= i < self.targets@.len() ==> -1 <= (#[trigger] self.targets@[i]).at.y
                <= self.height + 1 && -1 <= self.targets@[i].at.x <= self.width + 1
    }
}

/// Reads a level description.
pub fn parse_level(text: &Vec<u8>) -> (level: Option<Level>)
    ensures
        match level {
            Some(l) => spec_parse_level(text@) == Some(l@) && l.wf(),
            None => spec_parse_level(text@) is None,
        },
{
    let e0: usize = token_end(text, 0);
    if e0 >= text.len() {
        return None;
    }
    let e1: usize = token_end(text, e0 + 1);
    let h: usize = match parse_number(text, 0, e0, MAX_SIDE) {
        Some(h) => h,
        None => {
            return None;
        },
    };
    let w: usize = match parse_number(text, e0 + 1, e1, MAX_SIDE) {
        Some(w) => w,
        None => {
            return None;
        },
    };
    if h < 1 || w < 1 {
        return None;
    }
    let mut beams: Vec<Placement> = Vec::new();
    let mut targets: Vec<Placement> = Vec::new();
    let mut at: usize = e1;
    while at < text.len()
        invariant
            at <= text@.len(),
            spec_parse_level(text@) is None <==> spec_placements(
                text@,
                e1 as int,
                h as int,
                w as int,
                Seq::empty(),
                Seq::empty(),
            ) is None,
            spec_placements(text@, e1 as int, h as int, w as int, Seq::empty(), Seq::empty())
                == spec_placements(text@, at as int, h as int, w as int, beams@, targets@),
            forall|i: int|
                0 <= i < beams@.len() ==> -1 <= (#[trigger] beams@[i]).at.y <= h + 1 && -1
                    <= beams@[i].at.x <= w + 1,
            forall|i: int|
                0 <= i < targets@.len() ==> -1 <= (#[trigger] targets@[i]).at.y <= h + 1 && -1
                    <= targets@[i].at.x <= w + 1,
        decreases text@.len() - at,
    {
        let end: usize = token_end(text, at + 1);
        match parse_placement(text, at + 1, end, h, w) {
            None => {
                return None;
            },
            Some((is_beam, pl)) => {
                if is_beam {
                    beams.push(pl);
                } else {
                    targets.push(pl);
                }
            },
        }
        at = end;
    }
    Some(Level { height: h, width: w, beams, targets })
}

/// Why an address gives no level.
#[derive(Copy, Clone, PartialEq, Eq, Structural, Debug)]
pub enum LoadError {
    /// The address is no absolute URL.
    BadUrl,
    /// The address has no `q` parameter.
    NoQuery,
    /// The `q` parameter is no level description.
    BadLevel,
}

/// The name is `q`.
pub open spec fn spec_is_q(name: Seq<u8>) -> bool {
    name.len() == 1 && name[0] == 113
}

/// What loading gives: the plan of the level, or why there is none.
pub open spec fn spec_loaded(loaded: Result<Level, LoadError>) -> Result<LevelPlan, LoadError> {
    match loaded {
        Ok(l) => Ok(l@),
        Err(e) => Err(e),
    }
}

/// The names and values of the parameters, as byte strings.
pub open spec fn spec_pairs(pairs: Seq<(Vec<u8>, Vec<u8>)>) -> Seq<(Seq<u8>, Seq<u8>)> {
    Seq::new(pairs.len(), |i: int| (pairs[i].0@, pairs[i].1@))
}

/// The level that the parameters of an address carry: the one that the last
/// parameter named `q` describes.
pub open spec fn spec_level_from_pairs(pairs: Seq<(Seq<u8>, Seq<u8>)>) -> Result<
    LevelPlan,
    LoadError,
>
    decreases pairs.len(),
{
    if pairs.len() == 0 {
        Err(LoadError::NoQuery)
    } else if spec_is_q(pairs.last().0) {
        match spec_parse_level(pairs.last().1) {
            Some(plan) => Ok(plan),
            None => Err(LoadError::BadLevel),
        }
    } else {
        spec_level_from_pairs(pairs.drop_last())
    }
}

/// The level that the last parameter named `q` describes.
pub fn level_from_pairs(pairs: &Vec<(Vec<u8>, Vec<u8>)>) -> (loaded: Result<Level, LoadError>)
    ensures
        spec_loaded(loaded) == spec_level_from_pairs(spec_pairs(pairs@)),
        loaded matches Ok(l) ==> l.wf(),
{
    let ghost all = spec_pairs(pairs@);
    let mut i: usize = pairs.len();
    assert(all =~= all.take(i as int));
    while i > 0
        invariant
            i <= pairs@.len(),
            all == spec_pairs(pairs@),
            spec_level_from_pairs(all) == spec_level_from_pairs(all.take(i as int)),
        decreases i,
    {
        assert(all.take(i as int).drop_last() =~= all.take(i - 1));
        assert(all.take(i as int).last() == (pairs@[i - 1].0@, pairs@[i - 1].1@));
        i -= 1;
        let name: &Vec<u8> = &pairs[i].0;
        if name.len() == 1 && name[0] == 113u8 {
            return match parse_level(&pairs[i].1) {
                Some(l) => Ok(l),
                None => Err(LoadError::BadLevel),
            };
        }
    }
    Err(LoadError::NoQuery)
}

#[verifier::external_type_specification]
#[verifier::external_body]
pub struct ExParseError(url::ParseError);

/// The parameters that the query string of an address holds once the
/// address is read as a URL, each name and value as its bytes, in the order
/// in which they stand; none where the address is no absolute URL.
pub uninterp spec fn spec_url_query(href: Seq<char>) -> Option<Seq<(Seq<u8>, Seq<u8>)>>;

/// Calls `url::Url::parse` and, on the URL it gives, `Url::query_pairs`.
/// The first reads an absolute URL from a string or says why the string is
/// none; the second decodes the URL's query string into names and values.
/// Both depend on the string alone, and what they give is only named here.
#[verifier::external_body]
fn url_query_pairs(href: &str) -> (read: Result<Vec<(Vec<u8>, Vec<u8>)>, url::ParseError>)
    ensures
        match read {
            Ok(pairs) => spec_url_query(href@) == Some(spec_pairs(pairs@)),
            Err(_) => spec_url_query(href@) is None,
        },
{
    let url = url::Url::parse(href)?;
    let mut pairs = Vec::new();
    for (name, value) in url.query_pairs() {
        pairs.push((name.into_owned().into_bytes(), value.into_owned().into_bytes()));
    }
    Ok(pairs)
}

/// What an address gives once its parameters are known.
pub open spec fn spec_level_from_query(query: Option<Seq<(Seq<u8>, Seq<u8>)>>) -> Result<
    LevelPlan,
    LoadError,
> {
    match query {
        None => Err(LoadError::BadUrl),
        Some(pairs) => spec_level_from_pairs(pairs),
    }
}

/// The level that an address carries in its `q` parameter.
pub fn level_from_href(href: &str) -> (loaded: Result<Level, LoadError>)
    ensures
        spec_loaded(loaded) == spec_level_from_query(spec_url_query(href@)),
        loaded matches Ok(l) ==> l.wf(),
{
    match url_query_pairs(href) {
        Err(_) => Err(LoadError::BadUrl),
        Ok(pairs) => level_from_pairs(&pairs),
    }
}

} // verus!
