//! The container format of chart files: `&key=value` pairs.
use vstd::prelude::*;
use vstd::string::StringSliceAdditionalSpecFns;

use crate::insn::grammar::{is_ws, lit, skip_ws, spec_float, spec_u8};
use crate::insn::grammar::spec_parse;
use crate::insn::parser::{
    at, chars_of, parse_error_at, parse_insns, peek, skip_ws as skip_ws_exec, t_char, t_float, t_u8,
    ParseError,
};
use crate::insn::{insns_view, RawInsn, RawInsnView};
use crate::number::Decimal;
use crate::span::Sp;
use vstd::string::StrSliceExecFns;
use crate::span::{Pos, TEXT_LIMIT};
use crate::{difficulty_of, Difficulty, Level};

verus! {

/// A byte of ASCII whitespace: tab, line feed, carriage return or space.
pub open spec fn is_ws_byte(b: u8) -> bool {
    b == 0x09 || b == 0x0a || b == 0x0d || b == 0x20
}

/// The number of whitespace bytes at the end of `s`.
pub open spec fn trailing_ws(s: Seq<u8>) -> nat
    decreases s.len(),
{
    if s.len() > 0 && is_ws_byte(s.last()) {
        1 + trailing_ws(s.drop_last())
    } else {
        0
    }
}

/// The number of whitespace bytes (tab, line feed, carriage return, space) that end `x`.
pub fn num_rightmost_whitespaces(x: &str) -> (r: usize)
    ensures
        r == trailing_ws(x.spec_bytes()),
{
    let bytes = x.as_bytes();
    let mut result: usize = 0;
    assert(bytes@.subrange(0, bytes@.len() as int) =~= bytes@);
    while result < bytes.len() && (bytes[bytes.len() - 1 - result] == 0x09 || bytes[bytes.len() - 1
        - result] == 0x0a || bytes[bytes.len() - 1 - result] == 0x0d || bytes[bytes.len() - 1
        - result] == 0x20)
        invariant
            bytes@ == x.spec_bytes(),
            result <= bytes@.len(),
            trailing_ws(bytes@) == result + trailing_ws(bytes@.subrange(0, bytes@.len() - result)),
        decreases bytes@.len() - result,
    {
        let ghost head = bytes@.subrange(0, bytes@.len() - result);
        assert(head.drop_last() =~= bytes@.subrange(0, bytes@.len() - result - 1));
        result = result + 1;
    }
    proof {
        let head = bytes@.subrange(0, bytes@.len() - result);
        if result < bytes@.len() {
            assert(head.last() == bytes@[bytes@.len() - 1 - result]);
        }
    }
    result
}

/// What a key of the container format sets.
#[derive(Copy, Clone, Eq, PartialEq, Hash, Debug, Structural)]
pub enum KeyKind {
    Title,
    Artist,
    Offset,
    Designer,
    Message,
    DiffDesigner(Difficulty),
    DiffOffset(Difficulty),
    DiffInsns(Difficulty),
    DiffLevel(Difficulty),
    DiffMessage(Difficulty),
    Other,
}

/// What the key `k` sets: `title`, `artist`, `first`, `des`, `smsg` or `freemsg` for the whole
/// chart; `des_N`, `first_N`, `inote_N`, `lv_N`, `smsg_N` or `freemsg_N` for difficulty `N`.
pub open spec fn key_kind(k: Seq<char>) -> KeyKind {
    let d = if k.len() > 0 {
        difficulty_of(k.last())
    } else {
        None
    };
    if k.len() == 5 && k[0] == 't' && k[1] == 'i' && k[2] == 't' && k[3] == 'l' && k[4] == 'e' {
        KeyKind::Title
    } else if k.len() == 6 && k[0] == 'a' && k[1] == 'r' && k[2] == 't' && k[3] == 'i' && k[4]
        == 's' && k[5] == 't' {
        KeyKind::Artist
    } else if k.len() == 5 && k[0] == 'f' && k[1] == 'i' && k[2] == 'r' && k[3] == 's' && k[4]
        == 't' {
        KeyKind::Offset
    } else if k.len() == 3 && k[0] == 'd' && k[1] == 'e' && k[2] == 's' {
        KeyKind::Designer
    } else if (k.len() == 4 && k[0] == 's' && k[1] == 'm' && k[2] == 's' && k[3] == 'g') || (
    k.len() == 7 && k[0] == 'f' && k[1] == 'r' && k[2] == 'e' && k[3] == 'e' && k[4] == 'm' && k[5]
        == 's' && k[6] == 'g') {
        KeyKind::Message
    } else if d is None {
        KeyKind::Other
    } else if k.len() == 5 && k[0] == 'd' && k[1] == 'e' && k[2] == 's' && k[3] == '_' {
        KeyKind::DiffDesigner(d->0)
    } else if k.len() == 7 && k[0] == 'f' && k[1] == 'i' && k[2] == 'r' && k[3] == 's' && k[4]
        == 't' && k[5] == '_' {
        KeyKind::DiffOffset(d->0)
    } else if k.len() == 7 && k[0] == 'i' && k[1] == 'n' && k[2] == 'o' && k[3] == 't' && k[4]
        == 'e' && k[5] == '_' {
        KeyKind::DiffInsns(d->0)
    } else if k.len() == 4 && k[0] == 'l' && k[1] == 'v' && k[2] == '_' {
        KeyKind::DiffLevel(d->0)
    } else if (k.len() == 6 && k[0] == 's' && k[1] == 'm' && k[2] == 's' && k[3] == 'g' && k[4]
        == '_') || (k.len() == 9 && k[0] == 'f' && k[1] == 'r' && k[2] == 'e' && k[3] == 'e' && k[4]
        == 'm' && k[5] == 's' && k[6] == 'g' && k[7] == '_') {
        KeyKind::DiffMessage(d->0)
    } else {
        KeyKind::Other
    }
}

/// What a key sets.
pub fn classify_key(k: &[char]) -> (r: KeyKind)
    ensures
        r == key_kind(k@),
{
    let d = if k.len() > 0 {
        Difficulty::from_digit(k[k.len() - 1])
    } else {
        None
    };
    if k.len() == 5 && k[0] == 't' && k[1] == 'i' && k[2] == 't' && k[3] == 'l' && k[4] == 'e' {
        KeyKind::Title
    } else if k.len() == 6 && k[0] == 'a' && k[1] == 'r' && k[2] == 't' && k[3] == 'i' && k[4]
        == 's' && k[5] == 't' {
        KeyKind::Artist
    } else if k.len() == 5 && k[0] == 'f' && k[1] == 'i' && k[2] == 'r' && k[3] == 's' && k[4]
        == 't' {
        KeyKind::Offset
    } else if k.len() == 3 && k[0] == 'd' && k[1] == 'e' && k[2] == 's' {
        KeyKind::Designer
    } else if (k.len() == 4 && k[0] == 's' && k[1] == 'm' && k[2] == 's' && k[3] == 'g') || (
    k.len() == 7 && k[0] == 'f' && k[1] == 'r' && k[2] == 'e' && k[3] == 'e' && k[4] == 'm' && k[5]
        == 's' && k[6] == 'g') {
        KeyKind::Message
    } else {
        match d {
            None => KeyKind::Other,
            Some(d) => if k.len() == 5 && k[0] == 'd' && k[1] == 'e' && k[2] == 's' && k[3]
                == '_' {
                KeyKind::DiffDesigner(d)
            } else if k.len() == 7 && k[0] == 'f' && k[1] == 'i' && k[2] == 'r' && k[3] == 's'
                && k[4] == 't' && k[5] == '_' {
                KeyKind::DiffOffset(d)
            } else if k.len() == 7 && k[0] == 'i' && k[1] == 'n' && k[2] == 'o' && k[3] == 't'
                && k[4] == 'e' && k[5] == '_' {
                KeyKind::DiffInsns(d)
            } else if k.len() == 4 && k[0] == 'l' && k[1] == 'v' && k[2] == '_' {
                KeyKind::DiffLevel(d)
            } else if (k.len() == 6 && k[0] == 's' && k[1] == 'm' && k[2] == 's' && k[3] == 'g'
                && k[4] == '_') || (k.len() == 9 && k[0] == 'f' && k[1] == 'r' && k[2] == 'e'
                && k[3] == 'e' && k[4] == 'm' && k[5] == 's' && k[6] == 'g' && k[7] == '_') {
                KeyKind::DiffMessage(d)
            } else {
                KeyKind::Other
            },
        }
    }
}

/// A level: a number (`13`, or `13+`), or `※` and any one character.
pub open spec fn spec_level(v: Seq<char>) -> Option<Level> {
    match spec_u8(v, 0) {
        Ok((n, e)) => if lit(v, skip_ws(v, e), '+') is Ok {
            Some(Level::Plus(n))
        } else {
            Some(Level::Normal(n))
        },
        Err(_) => match lit(v, 0, '\u{203b}') {
            Ok(e) => {
                let j = skip_ws(v, e);
                if 0 <= j < v.len() {
                    Some(Level::Char(v[j]))
                } else {
                    None
                }
            },
            Err(_) => None,
        },
    }
}

/// Reads a level from the text of a level value.
pub fn t_level(v: &[char]) -> (r: Option<Level>)
    requires
        v@.len() <= TEXT_LIMIT,
    ensures
        r == spec_level(v@),
{
    let p = Pos::start(v);
    match t_u8(v, p) {
        Ok((n, e)) => if peek(v, skip_ws_exec(v, e), '+') {
            Some(Level::Plus(n))
        } else {
            Some(Level::Normal(n))
        },
        Err(_) => match t_char(v, p, '\u{203b}') {
            Ok(e) => {
                let j = skip_ws_exec(v, e);
                if j.idx < v.len() {
                    Some(Level::Char(v[j.idx]))
                } else {
                    None
                }
            },
            Err(_) => None,
        },
    }
}

/// A value that is one floating-point literal and nothing else.
pub open spec fn spec_whole_float(v: Seq<char>) -> Option<crate::number::Decimal> {
    match spec_float(v, 0) {
        Ok((x, e)) => if e == v.len() {
            Some(x)
        } else {
            None
        },
        Err(_) => None,
    }
}

/// Reads a value that is one floating-point literal and nothing else.
pub fn t_whole_float(v: &[char]) -> (r: Option<crate::number::Decimal>)
    requires
        v@.len() <= TEXT_LIMIT,
    ensures
        r == spec_whole_float(v@),
{
    match t_float(v, Pos::start(v)) {
        Ok((x, e)) => if e.idx == v.len() {
            Some(x)
        } else {
            None
        },
        Err(_) => None,
    }
}

/// A `&key=value` pair, as ranges of character indices; the value without its trailing
/// whitespace.
#[derive(Copy, Clone, Eq, PartialEq, Hash, Debug, Structural)]
pub struct KeyVal {
    pub key_start: usize,
    pub key_end: usize,
    pub val_start: usize,
    pub val_end: usize,
}

/// The index of the first `c` at or after `i`, or the length of the text where there is none.
pub open spec fn find_char(t: Seq<char>, i: int, c: char) -> int
    decreases t.len() - i,
{
    if 0 <= i < t.len() {
        if t[i] == c {
            i
        } else {
            find_char(t, i + 1, c)
        }
    } else {
        t.len() as int
    }
}

/// The end of `s .. e` without its trailing whitespace.
pub open spec fn rtrim(t: Seq<char>, s: int, e: int) -> int
    decreases e - s,
{
    if s < e && is_ws(t[e - 1]) {
        rtrim(t, s, e - 1)
    } else {
        e
    }
}

/// The pairs from `i` to the end of the text: each is whitespace, `&`, a key up to the first
/// `=`, and a value up to the next `&` or the end. Gives the index where a pair fails to start.
pub open spec fn spec_keyvals(t: Seq<char>, i: int) -> Result<Seq<KeyVal>, int>
    decreases t.len() - i,
{
    let j = skip_ws(t, i);
    if j >= t.len() {
        Ok(seq![])
    } else if t[j] != '&' {
        Err(j)
    } else {
        let ke = find_char(t, j + 1, '=');
        if ke >= t.len() {
            Err(j)
        } else {
            let ve = find_char(t, ke + 1, '&');
            let kv = KeyVal {
                key_start: (j + 1) as usize,
                key_end: ke as usize,
                val_start: (ke + 1) as usize,
                val_end: rtrim(t, ke + 1, ve) as usize,
            };
            if i < ve <= t.len() {
                match spec_keyvals(t, ve) {
                    Ok(rest) => Ok(seq![kv] + rest),
                    Err(e) => Err(e),
                }
            } else {
                Err(j)
            }
        }
    }
}

/// Where the pairs begin: after a byte order mark, if there is one.
pub open spec fn keyvals_start(t: Seq<char>) -> int {
    if t.len() > 0 && t[0] == '\u{feff}' {
        1
    } else {
        0
    }
}

/// The first `c` at or after `p`, or the end of the text.
fn find_char_exec(t: &[char], p: Pos, c: char) -> (r: Pos)
    requires
        at(t@, p),
    ensures
        r.wf(t@),
        r.idx == find_char(t@, p.idx as int, c),
        r.idx >= p.idx,
{
    let mut q = p;
    while q.idx < t.len() && t[q.idx] != c
        invariant
            at(t@, q),
            q.idx >= p.idx,
            find_char(t@, q.idx as int, c) == find_char(t@, p.idx as int, c),
        decreases t@.len() - q.idx,
    {
        q = q.bump(t);
    }
    q
}

/// The end of `s .. e` without its trailing whitespace.
fn rtrim_exec(t: &[char], s: usize, e: usize) -> (r: usize)
    requires
        s <= e <= t@.len(),
    ensures
        r == rtrim(t@, s as int, e as int),
        s <= r <= e,
{
    let mut r = e;
    while r > s && (t[r - 1] == ' ' || t[r - 1] == '\t' || t[r - 1] == '\n' || t[r - 1] == '\r')
        invariant
            s <= r <= e <= t@.len(),
            rtrim(t@, s as int, r as int) == rtrim(t@, s as int, e as int),
        decreases r,
    {
        r = r - 1;
    }
    r
}

/// Reads the pairs of a text, from the position `p`.
fn lex_keyvals(t: &[char], p: Pos) -> (r: Result<Vec<KeyVal>, Pos>)
    requires
        at(t@, p),
    ensures
        r matches Ok(v) ==> forall|k: int| 0 <= k < v@.len() ==> kv_in(#[trigger] v@[k], t@.len() as int),
        match (r, spec_keyvals(t@, p.idx as int)) {
            (Ok(v), Ok(kvs)) => v@ == kvs,
            (Err(q), Err(i)) => q.idx == i && q.wf(t@),
            _ => false,
        },
{
    let mut acc: Vec<KeyVal> = Vec::new();
    let mut q = p;
    assert(acc@ + Seq::<KeyVal>::empty() =~= acc@);
    loop
        invariant
            at(t@, q),
            forall|k: int| 0 <= k < acc@.len() ==> kv_in(#[trigger] acc@[k], t@.len() as int),
            spec_keyvals(t@, p.idx as int) == match spec_keyvals(t@, q.idx as int) {
                Ok(rest) => Ok(acc@ + rest),
                Err(i) => Err(i),
            },
        decreases t@.len() - q.idx,
    {
        let j = skip_ws_exec(t, q);
        if j.idx >= t.len() {
            assert(acc@ + Seq::<KeyVal>::empty() =~= acc@);
            return Ok(acc);
        }
        if t[j.idx] != '&' {
            return Err(j);
        }
        let ke = find_char_exec(t, j.bump(t), '=');
        if ke.idx >= t.len() {
            return Err(j);
        }
        let ve = find_char_exec(t, ke.bump(t), '&');
        let kv = KeyVal {
            key_start: j.idx + 1,
            key_end: ke.idx,
            val_start: ke.idx + 1,
            val_end: rtrim_exec(t, ke.idx + 1, ve.idx),
        };
        proof {
            match spec_keyvals(t@, ve.idx as int) {
                Ok(rest) => {
                    assert(acc@ + (seq![kv] + rest) =~= acc@.push(kv) + rest);
                },
                Err(_) => {},
            }
        }
        acc.push(kv);
        q = ve;
    }
}

/// The ranges of a pair are in order within a text of length `n`.
pub open spec fn kv_in(kv: KeyVal, n: int) -> bool {
    kv.key_start <= kv.key_end <= kv.val_start <= kv.val_end <= n
}

/// The data of one difficulty.
pub struct BeatmapData {
    pub difficulty: Difficulty,
    pub designer: Option<String>,
    pub offset: Option<Decimal>,
    pub level: Option<Level>,
    pub insns: Vec<Sp<RawInsn>>,
    pub single_message: Option<String>,
}

/// [`BeatmapData`] with sequences in place of strings and vectors.
pub struct BeatmapDataView {
    pub difficulty: Difficulty,
    pub designer: Option<Seq<char>>,
    pub offset: Option<Decimal>,
    pub level: Option<Level>,
    pub insns: Seq<Sp<RawInsnView>>,
    pub single_message: Option<Seq<char>>,
}

/// The view of an optional string.
pub open spec fn opt_str_view(o: Option<String>) -> Option<Seq<char>> {
    match o {
        Some(s) => Some(s@),
        None => None,
    }
}

impl View for BeatmapData {
    type V = BeatmapDataView;

    open spec fn view(&self) -> BeatmapDataView {
        BeatmapDataView {
            difficulty: self.difficulty,
            designer: opt_str_view(self.designer),
            offset: self.offset,
            level: self.level,
            insns: insns_view(self.insns@),
            single_message: opt_str_view(self.single_message),
        }
    }
}

/// A chart: its metadata, the values that difficulties fall back to, and the data of each
/// difficulty that the chart mentions, indexed by [`Difficulty::index`].
pub struct Maidata {
    pub title: String,
    pub artist: String,
    pub fallback_designer: Option<String>,
    pub fallback_offset: Option<Decimal>,
    pub fallback_single_message: Option<String>,
    pub difficulties: Vec<Option<BeatmapData>>,
}

/// [`Maidata`] with sequences in place of strings and vectors.
pub struct MaidataView {
    pub title: Seq<char>,
    pub artist: Seq<char>,
    pub fallback_designer: Option<Seq<char>>,
    pub fallback_offset: Option<Decimal>,
    pub fallback_single_message: Option<Seq<char>>,
    pub difficulties: Seq<Option<BeatmapDataView>>,
}

/// The view of an optional difficulty.
pub open spec fn opt_beatmap_view(o: Option<BeatmapData>) -> Option<BeatmapDataView> {
    match o {
        Some(b) => Some(b@),
        None => None,
    }
}

impl View for Maidata {
    type V = MaidataView;

    open spec fn view(&self) -> MaidataView {
        MaidataView {
            title: self.title@,
            artist: self.artist@,
            fallback_designer: opt_str_view(self.fallback_designer),
            fallback_offset: self.fallback_offset,
            fallback_single_message: opt_str_view(self.fallback_single_message),
            difficulties: self.difficulties@.map_values(|o: Option<BeatmapData>| opt_beatmap_view(o)),
        }
    }
}

/// A chart with nothing set.
pub open spec fn empty_maidata() -> MaidataView {
    MaidataView {
        title: seq![],
        artist: seq![],
        fallback_designer: None,
        fallback_offset: None,
        fallback_single_message: None,
        difficulties: Seq::new(7, |i: int| None),
    }
}

/// A difficulty with nothing set.
pub open spec fn default_beatmap(d: Difficulty) -> BeatmapDataView {
    BeatmapDataView {
        difficulty: d,
        designer: None,
        offset: None,
        level: None,
        insns: seq![],
        single_message: None,
    }
}

/// The data of a difficulty, as set so far.
pub open spec fn beatmap_of(m: MaidataView, d: Difficulty) -> BeatmapDataView {
    match m.difficulties[d.spec_index() as int] {
        Some(b) => b,
        None => default_beatmap(d),
    }
}

/// The chart with the data of one difficulty replaced.
pub open spec fn with_beatmap(m: MaidataView, b: BeatmapDataView) -> MaidataView {
    MaidataView { difficulties: m.difficulties.update(b.difficulty.spec_index() as int, Some(b)), ..m }
}

/// Why a chart could not be read.
#[derive(Copy, Clone, Eq, PartialEq, Hash, Debug, Structural)]
pub enum ContainerError {
    /// Text where a `&key=value` pair should begin.
    Syntax(ParseError),
    /// The offset of a difficulty is no number.
    Offset(Difficulty),
    /// The instructions of a difficulty do not parse; the location is within the value.
    Insns(Difficulty, ParseError),
}

/// One pair applied to the chart read so far.
pub open spec fn spec_apply(m: MaidataView, k: Seq<char>, v: Seq<char>) -> Result<
    MaidataView,
    ContainerError,
> {
    match key_kind(k) {
        KeyKind::Title => Ok(MaidataView { title: v, ..m }),
        KeyKind::Artist => Ok(MaidataView { artist: v, ..m }),
        KeyKind::Offset => match spec_whole_float(v) {
            Some(x) => Ok(MaidataView { fallback_offset: Some(x), ..m }),
            None => Ok(m),
        },
        KeyKind::Designer => Ok(MaidataView { fallback_designer: Some(v), ..m }),
        KeyKind::Message => Ok(MaidataView { fallback_single_message: Some(v), ..m }),
        KeyKind::DiffDesigner(d) => Ok(
            with_beatmap(m, BeatmapDataView { designer: Some(v), ..beatmap_of(m, d) }),
        ),
        KeyKind::DiffOffset(d) => match spec_whole_float(v) {
            Some(x) => Ok(with_beatmap(m, BeatmapDataView { offset: Some(x), ..beatmap_of(m, d) })),
            None => Err(ContainerError::Offset(d)),
        },
        KeyKind::DiffInsns(d) => match spec_parse(v) {
            Ok(insns) => Ok(with_beatmap(m, BeatmapDataView { insns, ..beatmap_of(m, d) })),
            Err(i) => Err(ContainerError::Insns(d, parse_error_at(v, i))),
        },
        KeyKind::DiffLevel(d) => match spec_level(v) {
            Some(l) => Ok(with_beatmap(m, BeatmapDataView { level: Some(l), ..beatmap_of(m, d) })),
            None => Ok(with_beatmap(m, beatmap_of(m, d))),
        },
        KeyKind::DiffMessage(d) => Ok(
            with_beatmap(m, BeatmapDataView { single_message: Some(v), ..beatmap_of(m, d) }),
        ),
        KeyKind::Other => Ok(m),
    }
}

/// Pairs applied in order.
pub open spec fn spec_fold(m: MaidataView, t: Seq<char>, kvs: Seq<KeyVal>) -> Result<
    MaidataView,
    ContainerError,
>
    decreases kvs.len(),
{
    if kvs.len() == 0 {
        Ok(m)
    } else {
        let kv = kvs[0];
        match spec_apply(
            m,
            t.subrange(kv.key_start as int, kv.key_end as int),
            t.subrange(kv.val_start as int, kv.val_end as int),
        ) {
            Ok(next) => spec_fold(next, t, kvs.drop_first()),
            Err(e) => Err(e),
        }
    }
}

/// A whole chart file.
pub open spec fn spec_lex_maidata(t: Seq<char>) -> Result<MaidataView, ContainerError> {
    match spec_keyvals(t, keyvals_start(t)) {
        Ok(kvs) => spec_fold(empty_maidata(), t, kvs),
        Err(i) => Err(ContainerError::Syntax(parse_error_at(t, i))),
    }
}

impl BeatmapData {
    /// A difficulty with nothing set.
    pub fn default_with_difficulty(difficulty: Difficulty) -> (r: BeatmapData)
        ensures
            r@ == default_beatmap(difficulty),
    {
        let r = BeatmapData {
            difficulty,
            designer: None,
            offset: None,
            level: None,
            insns: Vec::new(),
            single_message: None,
        };
        assert(insns_view(r.insns@) =~= Seq::empty());
        r
    }
}

impl Maidata {
    /// The chart's data, as a well-formed chart holds it: one entry per difficulty.
    pub open spec fn wf(self) -> bool {
        &&& self.difficulties@.len() == 7
        &&& forall|i: int|
            0 <= i < 7 ==> (#[trigger] self.difficulties@[i] matches Some(b) ==> b.difficulty.spec_index() == i)
    }

    /// A chart with nothing set.
    pub fn default() -> (r: Maidata)
        ensures
            r@ == empty_maidata(),
            r.wf(),
    {
        let mut difficulties: Vec<Option<BeatmapData>> = Vec::new();
        let mut i: usize = 0;
        while i < 7
            invariant
                i <= 7,
                difficulties@.len() == i,
                forall|k: int| 0 <= k < i ==> difficulties@[k] is None,
            decreases 7 - i,
        {
            difficulties.push(None);
            i = i + 1;
        }
        let r = Maidata {
            title: String::new(),
            artist: String::new(),
            fallback_designer: None,
            fallback_offset: None,
            fallback_single_message: None,
            difficulties,
        };
        assert(r@.difficulties =~= empty_maidata().difficulties);
        r
    }

    /// Takes the data of a difficulty out, as set so far.
    fn take_beatmap(&mut self, d: Difficulty) -> (r: BeatmapData)
        requires
            old(self).wf(),
        ensures
            r@ == beatmap_of(old(self)@, d),
            r.difficulty == d,
            final(self).difficulties@.len() == 7,
            final(self)@ == (MaidataView {
                difficulties: old(self)@.difficulties.update(d.spec_index() as int, None),
                ..old(self)@
            }),
            forall|i: int|
                0 <= i < 7 && i != d.spec_index() ==> #[trigger] final(self).difficulties@[i]
                    == old(self).difficulties@[i],
    {
        let idx = d.index();
        let old_entry = self.difficulties.remove(idx);
        self.difficulties.insert(idx, None);
        let r = match old_entry {
            Some(b) => b,
            None => BeatmapData::default_with_difficulty(d),
        };
        assert(self@.difficulties =~= old(self)@.difficulties.update(d.spec_index() as int, None));
        r
    }

    /// Puts the data of a difficulty in its place.
    fn put_beatmap(&mut self, b: BeatmapData)
        requires
            old(self).difficulties@.len() == 7,
            forall|i: int|
                0 <= i < 7 && i != b.difficulty.spec_index() ==> (
                #[trigger] old(self).difficulties@[i] matches Some(c) ==> c.difficulty.spec_index() == i),
        ensures
            final(self).wf(),
            final(self)@ == with_beatmap(old(self)@, b@),
    {
        let idx = b.difficulty.index();
        let ghost bv = b@;
        let _ = self.difficulties.remove(idx);
        self.difficulties.insert(idx, Some(b));
        assert(self@.difficulties =~= old(self)@.difficulties.update(idx as int, Some(bv)));
    }
}

/// Taking a difficulty's data out and putting new data in replaces it.
proof fn lemma_replace_beatmap(m0: MaidataView, b: BeatmapDataView)
    requires
        m0.difficulties.len() == 7,
    ensures
        with_beatmap(
            MaidataView {
                difficulties: m0.difficulties.update(b.difficulty.spec_index() as int, None),
                ..m0
            },
            b,
        ) == with_beatmap(m0, b),
{
    assert(m0.difficulties.update(b.difficulty.spec_index() as int, None).update(
        b.difficulty.spec_index() as int,
        Some(b),
    ) =~= m0.difficulties.update(b.difficulty.spec_index() as int, Some(b)));
}

/// Applies one pair to the chart read so far.
fn apply_keyval(m: &mut Maidata, x: &str, t: &[char], kv: KeyVal) -> (r: Result<(), ContainerError>)
    requires
        old(m).wf(),
        x@ == t@,
        t@.len() <= TEXT_LIMIT,
        kv_in(kv, t@.len() as int),
    ensures
        final(m).wf(),
        match spec_apply(
            old(m)@,
            t@.subrange(kv.key_start as int, kv.key_end as int),
            t@.subrange(kv.val_start as int, kv.val_end as int),
        ) {
            Ok(next) => r is Ok && final(m)@ == next,
            Err(e) => r == Err::<(), ContainerError>(e),
        },
{
    let key = vstd::slice::slice_subrange(t, kv.key_start, kv.key_end);
    let val = vstd::slice::slice_subrange(t, kv.val_start, kv.val_end);
    let text = x.substring_char(kv.val_start, kv.val_end).to_owned();
    let ghost m0 = m@;
    match classify_key(key) {
        KeyKind::Title => {
            m.title = text;
            Ok(())
        },
        KeyKind::Artist => {
            m.artist = text;
            Ok(())
        },
        KeyKind::Offset => {
            if let Some(v) = t_whole_float(val) {
                m.fallback_offset = Some(v);
            }
            Ok(())
        },
        KeyKind::Designer => {
            m.fallback_designer = Some(text);
            Ok(())
        },
        KeyKind::Message => {
            m.fallback_single_message = Some(text);
            Ok(())
        },
        KeyKind::DiffDesigner(d) => {
            let mut b = m.take_beatmap(d);
            b.designer = Some(text);
            proof {
                lemma_replace_beatmap(m0, b@);
            }
            m.put_beatmap(b);
            Ok(())
        },
        KeyKind::DiffOffset(d) => match t_whole_float(val) {
            Some(v) => {
                let mut b = m.take_beatmap(d);
                b.offset = Some(v);
                proof {
                lemma_replace_beatmap(m0, b@);
            }
            m.put_beatmap(b);
                Ok(())
            },
            None => Err(ContainerError::Offset(d)),
        },
        KeyKind::DiffInsns(d) => match parse_insns(val) {
            Ok(insns) => {
                let mut b = m.take_beatmap(d);
                b.insns = insns;
                proof {
                lemma_replace_beatmap(m0, b@);
            }
            m.put_beatmap(b);
                Ok(())
            },
            Err(e) => Err(ContainerError::Insns(d, e)),
        },
        KeyKind::DiffLevel(d) => {
            let mut b = m.take_beatmap(d);
            if let Some(l) = t_level(val) {
                b.level = Some(l);
            }
            proof {
                lemma_replace_beatmap(m0, b@);
            }
            m.put_beatmap(b);
            Ok(())
        },
        KeyKind::DiffMessage(d) => {
            let mut b = m.take_beatmap(d);
            b.single_message = Some(text);
            proof {
                lemma_replace_beatmap(m0, b@);
            }
            m.put_beatmap(b);
            Ok(())
        },
        KeyKind::Other => Ok(()),
    }
}

/// The `&key=value` pairs of a chart file, after an optional byte order mark, as ranges of
/// character indices; each value without its trailing whitespace.
pub fn lex_maidata_inner(x: &str) -> (r: Result<Vec<KeyVal>, ContainerError>)
    requires
        x@.len() <= TEXT_LIMIT,
    ensures
        match spec_keyvals(x@, keyvals_start(x@)) {
            Ok(kvs) => r matches Ok(v) && v@ == kvs,
            Err(i) => r == Err::<Vec<KeyVal>, ContainerError>(
                ContainerError::Syntax(parse_error_at(x@, i)),
            ),
        },
{
    let chars = chars_of(x);
    let t = chars.as_slice();
    let begin = Pos::start(t);
    let start = if t.len() > 0 && t[0] == '\u{feff}' {
        begin.bump(t)
    } else {
        begin
    };
    match lex_keyvals(t, start) {
        Ok(v) => Ok(v),
        Err(q) => Err(ContainerError::Syntax(ParseError { byte_offset: q.byte, line: q.line, col: q.col })),
    }
}

/// Reads a chart file: `&key=value` pairs, after an optional byte order mark, each value
/// without its trailing whitespace. Keys that set nothing are passed over. Fails where a pair
/// fails to start, where the offset of a difficulty is no number, and where the instructions of
/// a difficulty do not parse.
pub fn lex_maidata(x: &str) -> (r: Result<Maidata, ContainerError>)
    requires
        x@.len() <= TEXT_LIMIT,
    ensures
        match spec_lex_maidata(x@) {
            Ok(mv) => r matches Ok(m) && m@ == mv && m.wf(),
            Err(e) => r matches Err(e2) && e2 == e,
        },
{
    let chars = chars_of(x);
    let t = chars.as_slice();
    let begin = Pos::start(t);
    let start = if t.len() > 0 && t[0] == '\u{feff}' {
        begin.bump(t)
    } else {
        begin
    };
    let kvs = match lex_keyvals(t, start) {
        Ok(v) => v,
        Err(q) => {
            return Err(ContainerError::Syntax(ParseError { byte_offset: q.byte, line: q.line, col: q.col }));
        },
    };
    let mut m = Maidata::default();
    let ghost all = kvs@;
    let mut i: usize = 0;
    assert(all.subrange(0, all.len() as int) =~= all);
    while i < kvs.len()
        invariant
            m.wf(),
            x@ == t@,
            t@.len() <= TEXT_LIMIT,
            i <= all.len(),
            all == kvs@,
            forall|k: int| 0 <= k < all.len() ==> kv_in(#[trigger] all[k], t@.len() as int),
            spec_lex_maidata(x@) == spec_fold(m@, t@, all.subrange(i as int, all.len() as int)),
        decreases all.len() - i,
    {
        let ghost rest = all.subrange(i as int, all.len() as int);
        assert(rest.drop_first() =~= all.subrange(i + 1, all.len() as int));
        assert(rest[0] == all[i as int]);
        apply_keyval(&mut m, x, t, kvs[i])?;
        i = i + 1;
    }
    Ok(m)
}

/// The data of present difficulties, in order.
pub open spec fn present(s: Seq<Option<BeatmapDataView>>) -> Seq<BeatmapDataView>
    decreases s.len(),
{
    if s.len() == 0 {
        seq![]
    } else {
        match s.last() {
            Some(b) => present(s.drop_last()).push(b),
            None => present(s.drop_last()),
        }
    }
}

/// One difficulty of a chart, seen with the chart's fallback values.
pub struct AssociatedBeatmapData<'a> {
    pub global: &'a Maidata,
    pub map: &'a BeatmapData,
}

impl Maidata {
    pub fn title(&self) -> (r: &str)
        ensures
            r@ == self.title@,
    {
        self.title.as_str()
    }

    pub fn artist(&self) -> (r: &str)
        ensures
            r@ == self.artist@,
    {
        self.artist.as_str()
    }

    /// The difficulties that the chart mentions, from EASY to ORIGINAL.
    pub fn iter_difficulties(&self) -> (r: Vec<AssociatedBeatmapData<'_>>)
        ensures
            r@.map_values(|a: AssociatedBeatmapData| a.map@) == present(self@.difficulties),
            forall|k: int| 0 <= k < r@.len() ==> (#[trigger] r@[k]).global == self,
    {
        let mut r: Vec<AssociatedBeatmapData<'_>> = Vec::new();
        let mut i: usize = 0;
        let ghost all = self@.difficulties;
        assert(all.subrange(0, 0) =~= Seq::<Option<BeatmapDataView>>::empty());
        assert(r@.map_values(|a: AssociatedBeatmapData| a.map@) =~= Seq::empty());
        while i < self.difficulties.len()
            invariant
                i <= self.difficulties@.len(),
                all == self@.difficulties,
                r@.map_values(|a: AssociatedBeatmapData| a.map@) == present(all.subrange(0, i as int)),
                forall|k: int| 0 <= k < r@.len() ==> (#[trigger] r@[k]).global == self,
            decreases self.difficulties@.len() - i,
        {
            let ghost before = r@;
            assert(all.subrange(0, i + 1).drop_last() =~= all.subrange(0, i as int));
            match &self.difficulties[i] {
                Some(b) => {
                    r.push(AssociatedBeatmapData { global: self, map: b });
                    assert(r@.map_values(|a: AssociatedBeatmapData| a.map@) =~= before.map_values(
                        |a: AssociatedBeatmapData| a.map@,
                    ).push(b@));
                },
                None => {},
            }
            i = i + 1;
        }
        assert(all.subrange(0, all.len() as int) =~= all);
        r
    }
}

/// The first of two optional strings that is set.
fn str_or<'a>(a: &'a Option<String>, b: &'a Option<String>) -> (r: Option<&'a str>)
    ensures
        match r {
            Some(s) => opt_str_view(*a) == Some(s@) || (a is None && opt_str_view(*b) == Some(s@)),
            None => a is None && b is None,
        },
{
    match a {
        Some(s) => Some(s.as_str()),
        None => match b {
            Some(s) => Some(s.as_str()),
            None => None,
        },
    }
}

impl<'a> AssociatedBeatmapData<'a> {
    pub fn difficulty(&self) -> (r: Difficulty)
        ensures
            r == self.map.difficulty,
    {
        self.map.difficulty
    }

    /// The designer of the difficulty, else of the chart.
    pub fn designer(&self) -> (r: Option<&str>)
        ensures
            match r {
                Some(s) => opt_str_view(self.map.designer) == Some(s@) || (self.map.designer is None
                    && opt_str_view(self.global.fallback_designer) == Some(s@)),
                None => self.map.designer is None && self.global.fallback_designer is None,
            },
    {
        str_or(&self.map.designer, &self.global.fallback_designer)
    }

    /// The offset of the difficulty, else of the chart.
    pub fn offset(&self) -> (r: Option<Decimal>)
        ensures
            r == (match self.map.offset {
                Some(o) => Some(o),
                None => self.global.fallback_offset,
            }),
    {
        match self.map.offset {
            Some(o) => Some(o),
            None => self.global.fallback_offset,
        }
    }

    pub fn level(&self) -> (r: Option<Level>)
        ensures
            r == self.map.level,
    {
        self.map.level
    }

    /// The instructions of the difficulty.
    pub fn iter_insns(&self) -> (r: &'a Vec<Sp<RawInsn>>)
        ensures
            r == &self.map.insns,
    {
        &self.map.insns
    }

    /// The message of the difficulty, else of the chart.
    pub fn single_message(&self) -> (r: Option<&str>)
        ensures
            match r {
                Some(s) => opt_str_view(self.map.single_message) == Some(s@) || (
                self.map.single_message is None && opt_str_view(self.global.fallback_single_message)
                    == Some(s@)),
                None => self.map.single_message is None && self.global.fallback_single_message is None,
            },
    {
        str_or(&self.map.single_message, &self.global.fallback_single_message)
    }
}

} // verus!
