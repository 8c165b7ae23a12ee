//! The rules of a map description: material property words and the grid
//! rows that place materials, sprites and the player.

use vstd::prelude::*;

use super::mat::Mat;
use super::ray_caster::Side;
use super::Properties;
use crate::vec::{Point2, ONE};
use crate::world::thing::Thing;

verus! {

/// Why a map description is refused.
#[derive(Debug, Clone, Copy, PartialEq, Eq, Structural)]
pub enum MapError {
    /// A property word that is not one of the known ones, at this index.
    UnknownProperty(usize),
    /// A grid character that the description did not define.
    UnknownCell(char),
    /// A grid row, by index, whose length differs from the first row's.
    RaggedRow(usize),
    /// The grid has no rows, or its first row is empty.
    EmptyGrid,
    /// No player marker in the grid.
    NoPlayer,
    /// More than one player marker in the grid.
    ManyPlayers,
    /// A material definition without a symbol and its two texture words.
    ShortDefinition,
}

/// What a grid character stands for.
#[derive(Debug, Clone, Copy, PartialEq, Eq, Structural)]
pub enum Cell {
    /// A cell of this material.
    Material(Mat),
    /// Air with a sprite of this half-width and texture index at its centre.
    Sprite(i64, usize),
    /// Air where the player starts, facing this way.
    Player(Side),
    /// Air.
    Open,
}

/// The properties a description's words give a material, and whether they
/// declare a sprite; starting from solid and opaque.
pub open spec fn apply_word(state: (Properties, bool), w: Seq<char>) -> Option<(Properties, bool)> {
    let (p, thing) = state;
    if w == seq!['d', 'o', 'o', 'r'] {
        Some((Properties { door: true, ..p }, thing))
    } else if w == seq!['s', 'o', 'l', 'i', 'd'] {
        Some((Properties { solid: true, ..p }, thing))
    } else if w == seq!['n', 'o', 'n', 's', 'o', 'l', 'i', 'd'] || w == seq![
        'w',
        'a',
        'l',
        'k',
        't',
        'h',
        'r',
        'o',
        'u',
        'g',
        'h',
    ] {
        Some((Properties { solid: false, ..p }, thing))
    } else if w == seq!['t', 'r', 'a', 'n', 's', 'p', 'a', 'r', 'e', 'n', 't'] || w == seq![
        's',
        'e',
        'e',
        't',
        'h',
        'r',
        'o',
        'u',
        'g',
        'h',
    ] {
        Some((Properties { transparent: true, ..p }, thing))
    } else if w == seq!['o', 'p', 'a', 'q', 'u', 'e'] {
        Some((Properties { transparent: false, ..p }, thing))
    } else if w == seq!['r', 'e', 'f', 'l', 'e', 'c', 't', 'i', 'v', 'e'] {
        Some((Properties { transparent: true, reflective: true, ..p }, thing))
    } else if w == seq!['t', 'h', 'i', 'n', 'g'] {
        Some((p, true))
    } else {
        None
    }
}

/// The first `n` words applied in order; `Err(i)` at the first unknown one.
pub open spec fn apply_words(words: Seq<Seq<char>>, n: nat) -> Result<(Properties, bool), usize>
    decreases n,
{
    if n == 0 {
        Ok((Properties { solid: true, transparent: false, reflective: false, door: false }, false))
    } else {
        match apply_words(words, (n - 1) as nat) {
            Ok(state) => match apply_word(state, words[n - 1]) {
                Some(next) => Ok(next),
                None => Err((n - 1) as usize),
            },
            Err(i) => Err(i),
        }
    }
}

fn eq_word(w: &Vec<char>, lit: &[char]) -> (b: bool)
    ensures
        b == (w@ == lit@),
{
    if w.len() != lit.len() {
        return false;
    }
    let mut i: usize = 0;
    while i < w.len()
        invariant
            w.len() == lit.len(),
            i <= w.len(),
            forall|j: int| 0 <= j < i ==> w@[j] == lit@[j],
        decreases w.len() - i,
    {
        if w[i] != lit[i] {
            return false;
        }
        i = i + 1;
    }
    assert(w@ =~= lit@);
    true
}

fn apply_word_exec(state: (Properties, bool), w: &Vec<char>) -> (r: Option<(Properties, bool)>)
    ensures
        r == apply_word(state, w@),
{
    let (p, thing) = state;
    if eq_word(w, &['d', 'o', 'o', 'r']) {
        Some((Properties { door: true, ..p }, thing))
    } else if eq_word(w, &['s', 'o', 'l', 'i', 'd']) {
        Some((Properties { solid: true, ..p }, thing))
    } else if eq_word(w, &['n', 'o', 'n', 's', 'o', 'l', 'i', 'd']) || eq_word(
        w,
        &['w', 'a', 'l', 'k', 't', 'h', 'r', 'o', 'u', 'g', 'h'],
    ) {
        Some((Properties { solid: false, ..p }, thing))
    } else if eq_word(w, &['t', 'r', 'a', 'n', 's', 'p', 'a', 'r', 'e', 'n', 't']) || eq_word(
        w,
        &['s', 'e', 'e', 't', 'h', 'r', 'o', 'u', 'g', 'h'],
    ) {
        Some((Properties { transparent: true, ..p }, thing))
    } else if eq_word(w, &['o', 'p', 'a', 'q', 'u', 'e']) {
        Some((Properties { transparent: false, ..p }, thing))
    } else if eq_word(w, &['r', 'e', 'f', 'l', 'e', 'c', 't', 'i', 'v', 'e']) {
        Some((Properties { transparent: true, reflective: true, ..p }, thing))
    } else if eq_word(w, &['t', 'h', 'i', 'n', 'g']) {
        Some((p, true))
    } else {
        None
    }
}

/// The properties that a material definition's property words give, and
/// whether the definition is a sprite's; the index of the first unknown
/// word otherwise.
pub fn read_properties(words: &Vec<Vec<char>>) -> (r: Result<(Properties, bool), MapError>)
    ensures
        r == match apply_words(words@.map_values(|w: Vec<char>| w@), words.len() as nat) {
            Ok(s) => Ok(s),
            Err(i) => Err(MapError::UnknownProperty(i)),
        },
{
    let ghost ws = words@.map_values(|w: Vec<char>| w@);
    let mut state = (Properties { solid: true, transparent: false, reflective: false, door: false }, false);
    let mut i: usize = 0;
    while i < words.len()
        invariant
            ws == words@.map_values(|w: Vec<char>| w@),
            i <= words.len(),
            apply_words(ws, i as nat) == Ok::<(Properties, bool), usize>(state),
        decreases words.len() - i,
    {
        assert(ws[i as int] == words@[i as int]@);
        match apply_word_exec(state, &words[i]) {
            Some(next) => {
                state = next;
            },
            None => {
                proof {
                    lemma_apply_words_err(ws, (i + 1) as nat, words.len() as nat, i);
                }
                return Err(MapError::UnknownProperty(i));
            },
        }
        i = i + 1;
    }
    Ok(state)
}

proof fn lemma_apply_words_err(ws: Seq<Seq<char>>, n: nat, m: nat, i: usize)
    requires
        n <= m,
        apply_words(ws, n) == Err::<(Properties, bool), usize>(i),
    ensures
        apply_words(ws, m) == Err::<(Properties, bool), usize>(i),
    decreases m - n,
{
    if n < m {
        lemma_apply_words_err(ws, n, (m - 1) as nat, i);
    }
}

/// A material definition: its grid symbol, the properties its words give,
/// whether it declares a sprite, and its last two words (the light and dark
/// textures of a material; a sprite's half-width and texture).
#[derive(Debug)]
pub struct Definition {
    pub symbol: char,
    pub properties: Properties,
    pub thing: bool,
    pub texture: Vec<char>,
    pub texture_dark: Vec<char>,
}

/// What `read_definition` returns for the words of a definition line: the
/// first character of the first word is the symbol, the last two words are
/// the textures, and the words between are property words.
pub open spec fn definition_ok(words: Seq<Seq<char>>, r: Result<Definition, MapError>) -> bool {
    let n = words.len() as int;
    if n < 3 || words[0].len() == 0 {
        r == Err::<Definition, MapError>(MapError::ShortDefinition)
    } else {
        match apply_words(words.subrange(1, n - 2), (n - 3) as nat) {
            Err(i) => r == Err::<Definition, MapError>(MapError::UnknownProperty((i + 1) as usize)),
            Ok((p, thing)) => {
                &&& r is Ok
                &&& r->Ok_0.symbol == words[0][0]
                &&& r->Ok_0.properties == p
                &&& r->Ok_0.thing == thing
                &&& r->Ok_0.texture@ == words[n - 2]
                &&& r->Ok_0.texture_dark@ == words[n - 1]
            },
        }
    }
}

fn copy_word(w: &Vec<char>) -> (r: Vec<char>)
    ensures
        r@ == w@,
{
    let mut r: Vec<char> = Vec::new();
    let mut i: usize = 0;
    while i < w.len()
        invariant
            i <= w.len(),
            r@ == w@.take(i as int),
        decreases w.len() - i,
    {
        r.push(w[i]);
        i = i + 1;
        assert(r@ =~= w@.take(i as int));
    }
    assert(w@.take(w.len() as int) =~= w@);
    r
}

/// Reads the words of a material definition line.
pub fn read_definition(words: &Vec<Vec<char>>) -> (r: Result<Definition, MapError>)
    ensures
        definition_ok(words@.map_values(|w: Vec<char>| w@), r),
{
    let ghost ws = words@.map_values(|w: Vec<char>| w@);
    let n = words.len();
    if n < 3 || words[0].len() == 0 {
        proof {
            if n >= 3 {
                assert(ws[0] == words@[0]@);
            }
        }
        return Err(MapError::ShortDefinition);
    }
    assert(ws[0] == words@[0]@);
    let ghost sub = ws.subrange(1, n - 2);
    let mut state = (Properties { solid: true, transparent: false, reflective: false, door: false }, false);
    let mut i: usize = 1;
    while i < n - 2
        invariant
            ws == words@.map_values(|w: Vec<char>| w@),
            n == words.len(),
            n >= 3,
            sub == ws.subrange(1, n - 2),
            ws.len() == n,
            ws[0].len() > 0,
            1 <= i <= n - 2,
            apply_words(sub, (i - 1) as nat) == Ok::<(Properties, bool), usize>(state),
        decreases n - 2 - i,
    {
        assert(sub[i - 1] == words@[i as int]@);
        match apply_word_exec(state, &words[i]) {
            Some(next) => {
                state = next;
            },
            None => {
                proof {
                    assert(apply_words(sub, i as nat) == Err::<(Properties, bool), usize>((i - 1) as usize));
                    lemma_apply_words_err(sub, i as nat, (n - 3) as nat, (i - 1) as usize);
                    assert(ws.len() == n);
                }
                return Err(MapError::UnknownProperty(i));
            },
        }
        i = i + 1;
    }
    assert(ws[n - 2] == words@[n - 2]@ && ws[n - 1] == words@[n - 1]@);
    Ok(
        Definition {
            symbol: words[0][0],
            properties: state.0,
            thing: state.1,
            texture: copy_word(&words[n - 2]),
            texture_dark: copy_word(&words[n - 1]),
        },
    )
}

/// What character `c` stands for among the first `n` legend entries: the
/// last entry for it.
pub open spec fn lookup(legend: Seq<(char, Cell)>, c: char, n: int) -> Option<Cell>
    decreases n,
{
    if n <= 0 {
        None
    } else if legend[n - 1].0 == c {
        Some(legend[n - 1].1)
    } else {
        lookup(legend, c, n - 1)
    }
}

pub fn lookup_exec(legend: &Vec<(char, Cell)>, c: char) -> (r: Option<Cell>)
    ensures
        r == lookup(legend@, c, legend.len() as int),
{
    let mut n = legend.len();
    while n > 0
        invariant
            n <= legend.len(),
            lookup(legend@, c, legend.len() as int) == lookup(legend@, c, n as int),
        decreases n,
    {
        if legend[n - 1].0 == c {
            return Some(legend[n - 1].1);
        }
        n = n - 1;
    }
    None
}

/// The legend every description starts with: a space is air, and each of
/// `<`, `>`, `^`, `v` marks the player's start facing that way.
pub fn default_legend() -> (l: Vec<(char, Cell)>)
    ensures
        l@ == seq![
            (' ', Cell::Open),
            ('<', Cell::Player(Side::Left)),
            ('>', Cell::Player(Side::Right)),
            ('^', Cell::Player(Side::Up)),
            ('v', Cell::Player(Side::Down)),
        ],
{
    let l = vec![
        (' ', Cell::Open),
        ('<', Cell::Player(Side::Left)),
        ('>', Cell::Player(Side::Right)),
        ('^', Cell::Player(Side::Up)),
        ('v', Cell::Player(Side::Down)),
    ];
    assert(l@ =~= seq![
        (' ', Cell::Open),
        ('<', Cell::Player(Side::Left)),
        ('>', Cell::Player(Side::Right)),
        ('^', Cell::Player(Side::Up)),
        ('v', Cell::Player(Side::Down)),
    ]);
    l
}

/// The material a cell holds: its own for a material, air otherwise.
pub open spec fn cell_mat(c: Cell) -> Mat {
    match c {
        Cell::Material(m) => m,
        _ => Mat { id: 0 },
    }
}

/// The grid of a description, its sprites and where the player starts.
#[derive(Debug)]
pub struct Layout {
    pub width: i32,
    pub grid: Vec<Mat>,
    pub things: Vec<Thing>,
    pub player: (i32, i32, Side),
}

/// Largest number of cells along a side of a described grid.
pub const MAX_ROWS: usize = 0x8000;

/// The character at row-major index `k` of a grid of width `w`.
pub open spec fn char_at(rows: Seq<Seq<char>>, w: int, k: int) -> char {
    rows[k / w][k % w]
}

/// The sprites placed by the first `k` cells, in row-major order, each at
/// the centre of its cell.
pub open spec fn things_upto(rows: Seq<Seq<char>>, legend: Seq<(char, Cell)>, w: int, k: int) -> Seq<Thing>
    decreases k,
{
    if k <= 0 {
        seq![]
    } else {
        let before = things_upto(rows, legend, w, k - 1);
        match lookup(legend, char_at(rows, w, k - 1), legend.len() as int) {
            Some(Cell::Sprite(width, tex)) => before.push(
                Thing {
                    pos: Point2 {
                        x: (((k - 1) % w) * ONE + ONE / 2) as i64,
                        y: (((k - 1) / w) * ONE + ONE / 2) as i64,
                    },
                    width,
                    tex,
                },
            ),
            _ => before,
        }
    }
}

/// The last player marker among the first `k` cells, with its column and
/// row.
pub open spec fn player_upto(rows: Seq<Seq<char>>, legend: Seq<(char, Cell)>, w: int, k: int) -> Option<(i32, i32, Side)>
    decreases k,
{
    if k <= 0 {
        None
    } else {
        match lookup(legend, char_at(rows, w, k - 1), legend.len() as int) {
            Some(Cell::Player(s)) => Some((((k - 1) % w) as i32, ((k - 1) / w) as i32, s)),
            _ => player_upto(rows, legend, w, k - 1),
        }
    }
}

/// How many of the first `k` cells are player markers.
pub open spec fn players_upto(rows: Seq<Seq<char>>, legend: Seq<(char, Cell)>, w: int, k: int) -> nat
    decreases k,
{
    if k <= 0 {
        0
    } else {
        players_upto(rows, legend, w, k - 1) + match lookup(legend, char_at(rows, w, k - 1), legend.len() as int) {
            Some(Cell::Player(_)) => 1nat,
            _ => 0nat,
        }
    }
}

/// The first row-major index of a character the legend does not define.
pub open spec fn first_unknown(rows: Seq<Seq<char>>, legend: Seq<(char, Cell)>, w: int, k: int, n: int) -> Option<char>
    decreases n - k,
{
    if k < 0 || k >= n {
        None
    } else if lookup(legend, char_at(rows, w, k), legend.len() as int) is None {
        Some(char_at(rows, w, k))
    } else {
        first_unknown(rows, legend, w, k + 1, n)
    }
}

/// The first row whose length differs from the first row's.
pub open spec fn first_ragged(rows: Seq<Seq<char>>, j: int) -> Option<usize>
    decreases rows.len() - j,
{
    if j < 0 || j >= rows.len() {
        None
    } else if rows[j].len() != rows[0].len() {
        Some(j as usize)
    } else {
        first_ragged(rows, j + 1)
    }
}

/// What `build_grid` returns: refused if the grid is empty, ragged, holds
/// an undefined character, or does not hold exactly one player marker;
/// else the materials in row-major order, the sprites and the player's
/// start.
pub open spec fn layout_ok(rows: Seq<Seq<char>>, legend: Seq<(char, Cell)>, r: Result<Layout, MapError>) -> bool {
    let w = if rows.len() > 0 {
        rows[0].len() as int
    } else {
        0
    };
    let n = w * rows.len();
    if rows.len() == 0 || w == 0 {
        r == Err::<Layout, MapError>(MapError::EmptyGrid)
    } else if first_ragged(rows, 0) is Some {
        r == Err::<Layout, MapError>(MapError::RaggedRow(first_ragged(rows, 0)->Some_0))
    } else if first_unknown(rows, legend, w, 0, n) is Some {
        r == Err::<Layout, MapError>(MapError::UnknownCell(first_unknown(rows, legend, w, 0, n)->Some_0))
    } else if players_upto(rows, legend, w, n) == 0 {
        r == Err::<Layout, MapError>(MapError::NoPlayer)
    } else if players_upto(rows, legend, w, n) > 1 {
        r == Err::<Layout, MapError>(MapError::ManyPlayers)
    } else {
        &&& r is Ok
        &&& r->Ok_0.width == w
        &&& r->Ok_0.grid.len() == n
        &&& forall|k: int|
            0 <= k < n ==> #[trigger] r->Ok_0.grid@[k] == cell_mat(
                lookup(legend, char_at(rows, w, k), legend.len() as int)->Some_0,
            )
        &&& r->Ok_0.things@ == things_upto(rows, legend, w, n)
        &&& r->Ok_0.player == player_upto(rows, legend, w, n)->Some_0
    }
}

proof fn lemma_row_major(j: int, i: int, w: int)
    requires
        0 <= i < w,
        0 <= j,
    ensures
        (j * w + i) / w == j,
        (j * w + i) % w == i,
{
    assert((j * w + i) / w == j && (j * w + i) % w == i) by (nonlinear_arith)
        requires
            0 <= i < w,
            0 <= j,
    ;
}

/// Reads the grid rows of a description against its legend.
pub fn build_grid(rows: &Vec<Vec<char>>, legend: &Vec<(char, Cell)>) -> (r: Result<Layout, MapError>)
    requires
        rows.len() <= MAX_ROWS,
        forall|j: int| 0 <= j < rows.len() ==> (#[trigger] rows@[j]).len() <= MAX_ROWS,
    ensures
        layout_ok(rows@.map_values(|r: Vec<char>| r@), legend@, r),
{
    let ghost rs = rows@.map_values(|r: Vec<char>| r@);
    if rows.len() == 0 || rows[0].len() == 0 {
        return Err(MapError::EmptyGrid);
    }
    let w = rows[0].len();
    let h = rows.len();
    assert(rs[0].len() == w);
    assert(rs.len() == h);
    let mut j: usize = 0;
    while j < h
        invariant
            rs == rows@.map_values(|r: Vec<char>| r@),
            h == rows.len(),
            w == rs[0].len(),
            j <= h,
            rs.len() == h,
            h > 0,
            w > 0,
            first_ragged(rs, 0) == first_ragged(rs, j as int),
            forall|q: int| 0 <= q < j ==> (#[trigger] rs[q]).len() == w,
        decreases h - j,
    {
        assert(rs[j as int] == rows@[j as int]@);
        if rows[j].len() != w {
            assert(first_ragged(rs, j as int) == Some(j));
            return Err(MapError::RaggedRow(j));
        }
        j = j + 1;
    }
    assert(first_ragged(rs, h as int) is None);
    assert(w * h <= MAX_ROWS * MAX_ROWS) by (nonlinear_arith)
        requires
            w <= MAX_ROWS,
            h <= MAX_ROWS,
    ;
    let n = w * h;
    let ghost lg = legend@;
    let mut grid: Vec<Mat> = Vec::new();
    let mut things: Vec<Thing> = Vec::new();
    let mut player: Option<(i32, i32, Side)> = None;
    let mut players: usize = 0;
    let mut k: usize = 0;
    let mut i: usize = 0;
    let mut j: usize = 0;
    while k < n
        invariant
            rs == rows@.map_values(|r: Vec<char>| r@),
            lg == legend@,
            h == rows.len(),
            rs.len() == h,
            h > 0,
            first_ragged(rs, 0) is None,
            w == rs[0].len(),
            0 < w <= MAX_ROWS,
            h <= MAX_ROWS,
            n == w * h,
            forall|q: int| 0 <= q < h ==> (#[trigger] rs[q]).len() == w,
            k <= n,
            i < w,
            k == j * w + i,
            first_unknown(rs, lg, w as int, 0, n as int) == first_unknown(rs, lg, w as int, k as int, n as int),
            grid.len() == k,
            forall|q: int|
                0 <= q < k ==> #[trigger] grid@[q] == cell_mat(
                    lookup(lg, char_at(rs, w as int, q), lg.len() as int)->Some_0,
                ),
            forall|q: int| 0 <= q < k ==> lookup(lg, #[trigger] char_at(rs, w as int, q), lg.len() as int) is Some,
            things@ == things_upto(rs, lg, w as int, k as int),
            player == player_upto(rs, lg, w as int, k as int),
            players == players_upto(rs, lg, w as int, k as int),
            players <= k,
            (player is Some) == (players > 0),
        decreases n - k,
    {
        proof {
            lemma_row_major(j as int, i as int, w as int);
            assert(j < h) by (nonlinear_arith)
                requires
                    k == j * w + i,
                    k < n,
                    n == w * h,
                    0 <= i < w,
            ;
            assert(rs[j as int] == rows@[j as int]@);
        }
        let c = rows[j][i];
        assert(char_at(rs, w as int, k as int) == c);
        let cell = match lookup_exec(legend, c) {
            Some(cell) => cell,
            None => {
                assert(first_unknown(rs, lg, w as int, k as int, n as int) == Some(c));
                return Err(MapError::UnknownCell(c));
            },
        };
        match cell {
            Cell::Material(m) => grid.push(m),
            _ => grid.push(Mat::air()),
        }
        match cell {
            Cell::Sprite(width, tex) => {
                let pos = Point2::new(i as i64 * ONE + ONE / 2, j as i64 * ONE + ONE / 2);
                things.push(Thing::new(pos, width, tex));
            },
            Cell::Player(side) => {
                player = Some((i as i32, j as i32, side));
                players = players + 1;
            },
            _ => {},
        }
        k = k + 1;
        i = i + 1;
        if i == w {
            i = 0;
            j = j + 1;
            assert(k == j * w + i) by (nonlinear_arith)
                requires
                    k == (j - 1) * w + w,
                    i == 0,
            ;
        }
    }
    if players > 1 {
        return Err(MapError::ManyPlayers);
    }
    match player {
        Some(p) => {
            let layout = Layout { width: w as i32, grid, things, player: p };
            assert(layout.grid.len() == n);
            Ok(layout)
        },
        None => Err(MapError::NoPlayer),
    }
}

} // verus!
