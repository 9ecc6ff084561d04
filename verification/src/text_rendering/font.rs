use vstd::prelude::*;
use crate::text_rendering::chars::{
    after_bytes, chars_after_bytes, chars_of, count_leading, is_key, join, join_chars, leading,
    lemma_split_nonempty, lines, lines_of, parse_i32, parse_usize, remove_char, spec_parse_i32,
    spec_parse_usize, split, split_chars, string_from_chars, views, without, IntErrorKind,
};

verus! {

/// Why a `.fnt` font description could not be read.
#[derive(Debug, Clone, PartialEq, Eq)]
pub enum ParseFontError {
    GeneralError,
    /// A number in the description is not an integer; the kind says why.
    IntParseError(IntErrorKind),
    BoolParseError,
    NoPagesError,
    /// The page part of the description is malformed; the text says how.
    ParsePageError(String),
    PathHasNotParent,
}

/// A `ParseFontError` with its text as characters.
pub enum FontErrorView {
    GeneralError,
    IntParseError(IntErrorKind),
    BoolParseError,
    NoPagesError,
    ParsePageError(Seq<char>),
    PathHasNotParent,
}

impl View for ParseFontError {
    type V = FontErrorView;

    open spec fn view(&self) -> FontErrorView {
        match self {
            ParseFontError::GeneralError => FontErrorView::GeneralError,
            ParseFontError::IntParseError(k) => FontErrorView::IntParseError(*k),
            ParseFontError::BoolParseError => FontErrorView::BoolParseError,
            ParseFontError::NoPagesError => FontErrorView::NoPagesError,
            ParseFontError::ParsePageError(s) => FontErrorView::ParsePageError(s@),
            ParseFontError::PathHasNotParent => FontErrorView::PathHasNotParent,
        }
    }
}

/// What reading a piece of a description gives: a value, an error that
/// the reader returns, or a panic of the reader (on input that it indexes
/// past its end or unwraps).
pub enum Parsed<T> {
    Value(T),
    Error(FontErrorView),
    Panic,
}

/// What a reader of a description returns: a value, an error, or
/// `Panic` where the reader panics.
pub enum ReadOutcome<T> {
    Value(T),
    Error(ParseFontError),
    Panic,
}

impl<T: View> View for ReadOutcome<T> {
    type V = Parsed<T::V>;

    open spec fn view(&self) -> Parsed<T::V> {
        match self {
            ReadOutcome::Value(t) => Parsed::Value(t@),
            ReadOutcome::Error(e) => Parsed::Error(e@),
            ReadOutcome::Panic => Parsed::Panic,
        }
    }
}

/// `s` read as an `i32`.
pub open spec fn int_of(s: Seq<char>) -> Result<i32, IntErrorKind> {
    match spec_parse_i32(s) {
        Ok(v) => Ok(v as i32),
        Err(e) => Err(e),
    }
}

/// `s` read as a `usize`.
pub open spec fn usize_of(s: Seq<char>) -> Result<usize, IntErrorKind> {
    match spec_parse_usize(s) {
        Ok(v) => Ok(v as usize),
        Err(e) => Err(e),
    }
}

/// Reads `s` as an `i32`, with the error of the font reader.
fn int_field(s: &[char]) -> (r: Result<i32, ParseFontError>)
    ensures
        match r {
            Ok(v) => int_of(s@) == Ok::<i32, IntErrorKind>(v),
            Err(e) => exists|k: IntErrorKind|
                int_of(s@) == Err::<i32, IntErrorKind>(k) && e@ == FontErrorView::IntParseError(k),
        },
{
    match parse_i32(s) {
        Ok(v) => Ok(v),
        Err(k) => Err(ParseFontError::IntParseError(k)),
    }
}

/// Reads `s` as a `usize`, with the error of the font reader.
fn usize_field(s: &[char]) -> (r: Result<usize, ParseFontError>)
    ensures
        match r {
            Ok(v) => usize_of(s@) == Ok::<usize, IntErrorKind>(v),
            Err(e) => exists|k: IntErrorKind|
                usize_of(s@) == Err::<usize, IntErrorKind>(k) && e@ == FontErrorView::IntParseError(
                    k,
                ),
        },
{
    match parse_usize(s) {
        Ok(v) => Ok(v),
        Err(k) => Err(ParseFontError::IntParseError(k)),
    }
}

/// The first `k` pieces of `p` read as `i32`s in order, as a reader does
/// that indexes `p[0]`, ..., `p[k - 1]` one after the other and returns the
/// first error: it panics at the first index past the end of `p`.
pub open spec fn ints_in_order(p: Seq<Seq<char>>, k: nat) -> Parsed<Seq<i32>>
    decreases k,
{
    if k == 0 {
        Parsed::Value(Seq::empty())
    } else {
        match ints_in_order(p, (k - 1) as nat) {
            Parsed::Value(v) => if p.len() < k {
                Parsed::Panic
            } else {
                match int_of(p[k - 1]) {
                    Ok(x) => Parsed::Value(v.push(x)),
                    Err(e) => Parsed::Error(FontErrorView::IntParseError(e)),
                }
            },
            other => other,
        }
    }
}

proof fn lemma_ints_in_order_stops(p: Seq<Seq<char>>, i: nat, k: nat)
    requires
        i <= k,
        !(ints_in_order(p, i) is Value),
    ensures
        ints_in_order(p, k) == ints_in_order(p, i),
    decreases k,
{
    if k > i {
        lemma_ints_in_order_stops(p, i, (k - 1) as nat);
    }
}

proof fn lemma_ints_in_order_len(p: Seq<Seq<char>>, k: nat)
    ensures
        ints_in_order(p, k) matches Parsed::Value(v) ==> v.len() == k,
    decreases k,
{
    if k > 0 {
        lemma_ints_in_order_len(p, (k - 1) as nat);
    }
}

/// Reads the first `k` pieces of `p` as `i32`s in order.
fn ints_in_order_exec(p: &Vec<Vec<char>>, k: usize) -> (r: ReadOutcome<Vec<i32>>)
    ensures
        r@ == ints_in_order(views(p@), k as nat),
{
    let mut v: Vec<i32> = Vec::new();
    let mut i: usize = 0;
    while i < k
        invariant
            i <= k,
            ints_in_order(views(p@), i as nat) == Parsed::Value(v@),
        decreases k - i,
    {
        if i >= p.len() {
            proof {
                lemma_ints_in_order_stops(views(p@), (i + 1) as nat, k as nat);
            }
            return ReadOutcome::Panic;
        }
        proof {
            assert(views(p@)[i as int] == p@[i as int]@);
        }
        match int_field(p[i].as_slice()) {
            Ok(x) => {
                v.push(x);
            },
            Err(e) => {
                proof {
                    lemma_ints_in_order_stops(views(p@), (i + 1) as nat, k as nat);
                }
                return ReadOutcome::Error(e);
            },
        }
        i = i + 1;
    }
    ReadOutcome::Value(v)
}

/// Padding around each glyph of a font: top, bottom, left, right.
#[derive(Debug, Clone, Copy, PartialEq, Eq, Structural)]
pub struct Padding {
    pub top: i32,
    pub bottom: i32,
    pub left: i32,
    pub right: i32,
}

/// `top,bottom,left,right` read as a padding, as the font reader reads it:
/// the four numbers in order, the first error returned, a panic where
/// fewer than four pieces come before it.
pub open spec fn padding_spec(s: Seq<char>) -> Parsed<Padding> {
    match ints_in_order(split(s, ','), 4) {
        Parsed::Value(v) => Parsed::Value(Padding { top: v[0], bottom: v[1], left: v[2], right: v[3] }),
        Parsed::Error(e) => Parsed::Error(e),
        Parsed::Panic => Parsed::Panic,
    }
}

impl View for Padding {
    type V = Padding;

    open spec fn view(&self) -> Padding {
        *self
    }
}

impl Padding {
    /// No padding.
    pub fn empty() -> (p: Self)
        ensures
            p == (Padding { top: 0, bottom: 0, left: 0, right: 0 }),
    {
        Self { top: 0, bottom: 0, left: 0, right: 0 }
    }

    /// Reads `top,bottom,left,right`.
    pub fn from_str(s: &str) -> (r: Result<Padding, ParseFontError>)
        requires
            !(padding_spec(s@) is Panic),
        ensures
            match r {
                Ok(p) => padding_spec(s@) == Parsed::Value(p),
                Err(e) => padding_spec(s@) == Parsed::<Padding>::Error(e@),
            },
    {
        let cs = chars_of(s);
        match Self::read(cs.as_slice()) {
            ReadOutcome::Value(p) => Ok(p),
            ReadOutcome::Error(e) => Err(e),
            ReadOutcome::Panic => Err(ParseFontError::GeneralError),
        }
    }

    fn read(s: &[char]) -> (r: ReadOutcome<Padding>)
        ensures
            r@ == padding_spec(s@),
    {
        let p = split_chars(s, ',');
        match ints_in_order_exec(&p, 4) {
            ReadOutcome::Value(v) => {
                proof {
                    lemma_ints_in_order_len(views(p@), 4);
                }
                ReadOutcome::Value(Padding { top: v[0], bottom: v[1], left: v[2], right: v[3] })
            },
            ReadOutcome::Error(e) => ReadOutcome::Error(e),
            ReadOutcome::Panic => ReadOutcome::Panic,
        }
    }
}

/// Reads `parts` one after the other with `step`, from `init`; stops at
/// the first error or panic.
pub open spec fn fold_parts<T>(
    parts: Seq<Seq<char>>,
    init: T,
    step: spec_fn(T, Seq<char>) -> Parsed<T>,
) -> Parsed<T>
    decreases parts.len(),
{
    if parts.len() == 0 {
        Parsed::Value(init)
    } else {
        match fold_parts(parts.drop_last(), init, step) {
            Parsed::Value(t) => step(t, parts.last()),
            other => other,
        }
    }
}

proof fn lemma_fold_parts_stops<T>(
    parts: Seq<Seq<char>>,
    k: int,
    init: T,
    step: spec_fn(T, Seq<char>) -> Parsed<T>,
)
    requires
        0 <= k <= parts.len(),
        !(fold_parts(parts.take(k), init, step) is Value),
    ensures
        fold_parts(parts, init, step) == fold_parts(parts.take(k), init, step),
    decreases parts.len(),
{
    if k == parts.len() {
        assert(parts.take(k) =~= parts);
    } else {
        assert(parts.drop_last().take(k) =~= parts.take(k));
        lemma_fold_parts_stops(parts.drop_last(), k, init, step);
    }
}

proof fn lemma_fold_parts_step<T>(
    parts: Seq<Seq<char>>,
    i: int,
    init: T,
    step: spec_fn(T, Seq<char>) -> Parsed<T>,
)
    requires
        0 <= i < parts.len(),
    ensures
        fold_parts(parts.take(i + 1), init, step) == (match fold_parts(parts.take(i), init, step) {
            Parsed::Value(t) => step(t, parts[i]),
            other => other,
        }),
{
    assert(parts.take(i + 1).drop_last() =~= parts.take(i));
}

/// Space between glyphs, across and down.
#[derive(Debug, Clone, Copy, PartialEq, Eq, Structural)]
pub struct Spacing {
    pub x: i32,
    pub y: i32,
}

/// The size of the glyph texture.
#[derive(Debug, Clone, Copy, PartialEq, Eq, Structural)]
pub struct Scale {
    pub w: i32,
    pub h: i32,
}

/// The `info` and `common` lines of a `.fnt` description.
#[derive(Debug, Clone)]
pub struct FontInfo {
    pub spacing: Spacing,
    pub face: String,
    pub size: i32,
    pub stretch_h: i32,
    pub padding: Padding,
    pub aa: i32,
    pub smooth: i32,
    pub line_height: i32,
    pub scale: Scale,
    pub pages: i32,
    pub packed: bool,
}

/// A `FontInfo` with the face name as characters.
pub struct FontInfoView {
    pub spacing: Spacing,
    pub face: Seq<char>,
    pub size: i32,
    pub stretch_h: i32,
    pub padding: Padding,
    pub aa: i32,
    pub smooth: i32,
    pub line_height: i32,
    pub scale: Scale,
    pub pages: i32,
    pub packed: bool,
}

impl View for FontInfo {
    type V = FontInfoView;

    open spec fn view(&self) -> FontInfoView {
        FontInfoView {
            spacing: self.spacing,
            face: self.face@,
            size: self.size,
            stretch_h: self.stretch_h,
            padding: self.padding,
            aa: self.aa,
            smooth: self.smooth,
            line_height: self.line_height,
            scale: self.scale,
            pages: self.pages,
            packed: self.packed,
        }
    }
}

/// Every field zero, empty or false.
pub open spec fn empty_info() -> FontInfoView {
    FontInfoView {
        spacing: Spacing { x: 0, y: 0 },
        face: Seq::empty(),
        size: 0,
        stretch_h: 0,
        padding: Padding { top: 0, bottom: 0, left: 0, right: 0 },
        aa: 0,
        smooth: 0,
        line_height: 0,
        scale: Scale { w: 0, h: 0 },
        pages: 0,
        packed: false,
    }
}

/// `info` with the field that `set` writes set to `val` read as an `i32`,
/// or the error of reading it.
pub open spec fn set_int(
    info: FontInfoView,
    val: Seq<char>,
    set: spec_fn(FontInfoView, i32) -> FontInfoView,
) -> Parsed<FontInfoView> {
    match int_of(val) {
        Ok(v) => Parsed::Value(set(info, v)),
        Err(e) => Parsed::Error(FontErrorView::IntParseError(e)),
    }
}

/// One `key=value` piece of the info lines applied to `info`. A piece
/// that is not exactly two texts around one `=`, or whose key is not
/// known, leaves `info` as it is.
pub open spec fn info_step(info: FontInfoView, part: Seq<char>) -> Parsed<FontInfoView> {
    let kv = split(part, '=');
    if kv.len() != 2 {
        Parsed::Value(info)
    } else {
        let key = kv[0];
        let val = kv[1];
        if key == "face"@ {
            Parsed::Value(FontInfoView { face: val, ..info })
        } else if key == "size"@ {
            set_int(info, val, |i: FontInfoView, v: i32| FontInfoView { size: v, ..i })
        } else if key == "stretchH"@ {
            set_int(info, val, |i: FontInfoView, v: i32| FontInfoView { stretch_h: v, ..i })
        } else if key == "smooth"@ {
            set_int(info, val, |i: FontInfoView, v: i32| FontInfoView { smooth: v, ..i })
        } else if key == "aa"@ {
            set_int(info, val, |i: FontInfoView, v: i32| FontInfoView { aa: v, ..i })
        } else if key == "padding"@ {
            match padding_spec(val) {
                Parsed::Value(p) => Parsed::Value(FontInfoView { padding: p, ..info }),
                Parsed::Error(e) => Parsed::Error(e),
                Parsed::Panic => Parsed::Panic,
            }
        } else if key == "spacing"@ {
            match ints_in_order(split(val, ','), 2) {
                Parsed::Value(v) => Parsed::Value(
                    FontInfoView { spacing: Spacing { x: v[0], y: v[1] }, ..info },
                ),
                _ => Parsed::Panic,
            }
        } else if key == "lineHeight"@ {
            set_int(info, val, |i: FontInfoView, v: i32| FontInfoView { line_height: v, ..i })
        } else if key == "scaleW"@ {
            set_int(
                info,
                val,
                |i: FontInfoView, v: i32| FontInfoView { scale: Scale { w: v, h: i.scale.h }, ..i },
            )
        } else if key == "scaleH"@ {
            set_int(
                info,
                val,
                |i: FontInfoView, v: i32| FontInfoView { scale: Scale { w: i.scale.w, h: v }, ..i },
            )
        } else if key == "pages"@ {
            set_int(info, val, |i: FontInfoView, v: i32| FontInfoView { pages: v, ..i })
        } else if key == "packed"@ {
            set_int(info, val, |i: FontInfoView, v: i32| FontInfoView { packed: v > 0, ..i })
        } else {
            Parsed::Value(info)
        }
    }
}

/// The info lines, joined by spaces, read as a `FontInfo`: the first five
/// bytes (the `info ` keyword) are cut off, and the rest is read piece by
/// piece between spaces, from an empty info. Panics where the text is
/// shorter than five bytes or the fifth byte ends inside a character.
pub open spec fn info_spec(s: Seq<char>) -> Parsed<FontInfoView> {
    match after_bytes(s, 5) {
        None => Parsed::Panic,
        Some(rest) => fold_parts(
            split(rest, ' '),
            empty_info(),
            |i: FontInfoView, p: Seq<char>| info_step(i, p),
        ),
    }
}

impl FontInfo {
    /// Every field zero, empty or false.
    pub fn empty() -> (r: Self)
        ensures
            r@ == empty_info(),
    {
        Self {
            spacing: Spacing { x: 0, y: 0 },
            face: String::new(),
            size: 0,
            stretch_h: 0,
            line_height: 0,
            scale: Scale { w: 0, h: 0 },
            pages: 0,
            aa: 0,
            smooth: 0,
            padding: Padding::empty(),
            packed: false,
        }
    }

    /// Applies one `key=value` piece.
    fn apply_part(&mut self, part: &[char]) -> (r: ReadOutcome<()>)
        ensures
            match r {
                ReadOutcome::Value(_) => info_step(old(self)@, part@) == Parsed::Value(final(self)@),
                ReadOutcome::Error(e) => info_step(old(self)@, part@) == Parsed::<FontInfoView>::Error(e@),
                ReadOutcome::Panic => info_step(old(self)@, part@) is Panic,
            },
    {
        let kv = split_chars(part, '=');
        if kv.len() != 2 {
            return ReadOutcome::Value(());
        }
        proof {
            assert(views(kv@)[0] == kv@[0]@);
            assert(views(kv@)[1] == kv@[1]@);
        }
        let key = kv[0].as_slice();
        let val = kv[1].as_slice();
        if is_key(key, "face") {
            self.face = string_from_chars(val);
        } else if is_key(key, "size") {
            match int_field(val) {
                Ok(v) => self.size = v,
                Err(e) => return ReadOutcome::Error(e),
            }
        } else if is_key(key, "stretchH") {
            match int_field(val) {
                Ok(v) => self.stretch_h = v,
                Err(e) => return ReadOutcome::Error(e),
            }
        } else if is_key(key, "smooth") {
            match int_field(val) {
                Ok(v) => self.smooth = v,
                Err(e) => return ReadOutcome::Error(e),
            }
        } else if is_key(key, "aa") {
            match int_field(val) {
                Ok(v) => self.aa = v,
                Err(e) => return ReadOutcome::Error(e),
            }
        } else if is_key(key, "padding") {
            match Padding::read(val) {
                ReadOutcome::Value(p) => self.padding = p,
                ReadOutcome::Error(e) => return ReadOutcome::Error(e),
                ReadOutcome::Panic => return ReadOutcome::Panic,
            }
        } else if is_key(key, "spacing") {
            let splt = split_chars(val, ',');
            match ints_in_order_exec(&splt, 2) {
                ReadOutcome::Value(v) => {
                    proof {
                        lemma_ints_in_order_len(views(splt@), 2);
                    }
                    self.spacing = Spacing { x: v[0], y: v[1] };
                },
                _ => return ReadOutcome::Panic,
            }
        } else if is_key(key, "lineHeight") {
            match int_field(val) {
                Ok(v) => self.line_height = v,
                Err(e) => return ReadOutcome::Error(e),
            }
        } else if is_key(key, "scaleW") {
            match int_field(val) {
                Ok(v) => self.scale.w = v,
                Err(e) => return ReadOutcome::Error(e),
            }
        } else if is_key(key, "scaleH") {
            match int_field(val) {
                Ok(v) => self.scale.h = v,
                Err(e) => return ReadOutcome::Error(e),
            }
        } else if is_key(key, "pages") {
            match int_field(val) {
                Ok(v) => self.pages = v,
                Err(e) => return ReadOutcome::Error(e),
            }
        } else if is_key(key, "packed") {
            match int_field(val) {
                Ok(v) => self.packed = v > 0,
                Err(e) => return ReadOutcome::Error(e),
            }
        }
        ReadOutcome::Value(())
    }

    /// Reads the info lines of a description, joined by spaces.
    pub fn from_str(s: &str) -> (r: Result<FontInfo, ParseFontError>)
        requires
            !(info_spec(s@) is Panic),
        ensures
            match r {
                Ok(info) => info_spec(s@) == Parsed::Value(info@),
                Err(e) => info_spec(s@) == Parsed::<FontInfoView>::Error(e@),
            },
    {
        let cs = chars_of(s);
        match Self::read(cs.as_slice()) {
            ReadOutcome::Value(info) => Ok(info),
            ReadOutcome::Error(e) => Err(e),
            ReadOutcome::Panic => Err(ParseFontError::GeneralError),
        }
    }

    fn read(s: &[char]) -> (r: ReadOutcome<FontInfo>)
        ensures
            r@ == info_spec(s@),
    {
        let rest = match chars_after_bytes(s, 5) {
            Some(r) => r,
            None => {
                return ReadOutcome::Panic;
            },
        };
        let parts = split_chars(rest.as_slice(), ' ');
        let ghost step = |i: FontInfoView, p: Seq<char>| info_step(i, p);
        let ghost ps = views(parts@);
        let mut info = FontInfo::empty();
        let mut i: usize = 0;
        proof {
            assert(ps.take(0) =~= Seq::<Seq<char>>::empty());
        }
        while i < parts.len()
            invariant
                i <= parts.len(),
                ps == views(parts@),
                step == (|i: FontInfoView, p: Seq<char>| info_step(i, p)),
                info_spec(s@) == fold_parts(ps, empty_info(), step),
                fold_parts(ps.take(i as int), empty_info(), step) == Parsed::Value(info@),
            decreases parts.len() - i,
        {
            proof {
                lemma_fold_parts_step(ps, i as int, empty_info(), step);
                assert(ps[i as int] == parts@[i as int]@);
            }
            match info.apply_part(parts[i].as_slice()) {
                ReadOutcome::Value(_) => {},
                ReadOutcome::Error(e) => {
                    proof {
                        lemma_fold_parts_stops(ps, i + 1, empty_info(), step);
                    }
                    return ReadOutcome::Error(e);
                },
                ReadOutcome::Panic => {
                    proof {
                        lemma_fold_parts_stops(ps, i + 1, empty_info(), step);
                    }
                    return ReadOutcome::Panic;
                },
            }
            i = i + 1;
        }
        proof {
            assert(ps.take(parts.len() as int) =~= ps);
        }
        ReadOutcome::Value(info)
    }
}

/// `t` with the field that `set` writes set to the second piece of `kv`
/// read as an `i32`: a panic where there is no second piece.
pub open spec fn set_second_int<T>(t: T, kv: Seq<Seq<char>>, set: spec_fn(T, i32) -> T) -> Parsed<
    T,
> {
    if kv.len() < 2 {
        Parsed::Panic
    } else {
        match int_of(kv[1]) {
            Ok(v) => Parsed::Value(set(t, v)),
            Err(e) => Parsed::Error(FontErrorView::IntParseError(e)),
        }
    }
}

/// As `set_second_int`, for a `usize` field.
pub open spec fn set_second_usize<T>(
    t: T,
    kv: Seq<Seq<char>>,
    set: spec_fn(T, usize) -> T,
) -> Parsed<T> {
    if kv.len() < 2 {
        Parsed::Panic
    } else {
        match usize_of(kv[1]) {
            Ok(v) => Parsed::Value(set(t, v)),
            Err(e) => Parsed::Error(FontErrorView::IntParseError(e)),
        }
    }
}

/// The `page` line of a description: the page's id and its image file.
#[derive(Debug, Clone)]
pub struct PageInfo {
    pub id: usize,
    pub file_name: String,
}

/// A `PageInfo` with the file name as characters.
pub struct PageInfoView {
    pub id: usize,
    pub file_name: Seq<char>,
}

impl View for PageInfo {
    type V = PageInfoView;

    open spec fn view(&self) -> PageInfoView {
        PageInfoView { id: self.id, file_name: self.file_name@ }
    }
}

/// The text of the error for an unknown key `a` on the page line.
pub open spec fn unknown_key_message(a: Seq<char>) -> Seq<char> {
    "Parsing page info found unknown '"@ + a + "'"@
}

/// One piece of the page line applied to `info`: `id=` sets the id,
/// `file=` the file name without its quotes; any other key is an error,
/// and a piece that is not exactly two texts around one `=` is skipped.
pub open spec fn page_info_step(info: PageInfoView, part: Seq<char>) -> Parsed<PageInfoView> {
    let kv = split(part, '=');
    if kv.len() != 2 {
        Parsed::Value(info)
    } else if kv[0] == "id"@ {
        match usize_of(kv[1]) {
            Ok(v) => Parsed::Value(PageInfoView { id: v, file_name: info.file_name }),
            Err(e) => Parsed::Error(FontErrorView::IntParseError(e)),
        }
    } else if kv[0] == "file"@ {
        Parsed::Value(PageInfoView { id: info.id, file_name: without(kv[1], '"') })
    } else {
        Parsed::Error(FontErrorView::ParsePageError(unknown_key_message(kv[0])))
    }
}

/// The page line read piece by piece between spaces, from id 0 and no
/// file name.
pub open spec fn page_info_spec(s: Seq<char>) -> Parsed<PageInfoView> {
    fold_parts(
        split(s, ' '),
        PageInfoView { id: 0, file_name: Seq::empty() },
        |i: PageInfoView, p: Seq<char>| page_info_step(i, p),
    )
}

impl PageInfo {
    fn apply_part(&mut self, part: &[char]) -> (r: Result<(), ParseFontError>)
        ensures
            match r {
                Ok(()) => page_info_step(old(self)@, part@) == Parsed::Value(final(self)@),
                Err(e) => page_info_step(old(self)@, part@) == Parsed::<PageInfoView>::Error(e@),
            },
    {
        let kv = split_chars(part, '=');
        if kv.len() != 2 {
            return Ok(());
        }
        proof {
            assert(views(kv@)[0] == kv@[0]@);
            assert(views(kv@)[1] == kv@[1]@);
        }
        let key = kv[0].as_slice();
        let val = kv[1].as_slice();
        if is_key(key, "id") {
            match usize_field(val) {
                Ok(v) => self.id = v,
                Err(e) => return Err(e),
            }
        } else if is_key(key, "file") {
            let name = remove_char(val, '"');
            self.file_name = string_from_chars(name.as_slice());
        } else {
            let mut msg = chars_of("Parsing page info found unknown '");
            let ghost head = msg@;
            let mut k: usize = 0;
            while k < key.len()
                invariant
                    k <= key.len(),
                    msg@ == head + key@.take(k as int),
                decreases key.len() - k,
            {
                msg.push(key[k]);
                k = k + 1;
                proof {
                    assert(msg@ =~= head + key@.take(k as int));
                }
            }
            msg.push('\'');
            proof {
                reveal_strlit("'");
                assert(key@.take(key.len() as int) =~= key@);
                assert(msg@ =~= unknown_key_message(key@));
            }
            return Err(ParseFontError::ParsePageError(string_from_chars(msg.as_slice())));
        }
        Ok(())
    }

    /// Reads the page line of a description.
    pub fn from_str(s: &str) -> (r: Result<PageInfo, ParseFontError>)
        ensures
            match r {
                Ok(info) => page_info_spec(s@) == Parsed::Value(info@),
                Err(e) => page_info_spec(s@) == Parsed::<PageInfoView>::Error(e@),
            },
    {
        let cs = chars_of(s);
        Self::from_chars(cs.as_slice())
    }

    fn from_chars(s: &[char]) -> (r: Result<PageInfo, ParseFontError>)
        ensures
            match r {
                Ok(info) => page_info_spec(s@) == Parsed::Value(info@),
                Err(e) => page_info_spec(s@) == Parsed::<PageInfoView>::Error(e@),
            },
    {
        let parts = split_chars(s, ' ');
        let ghost step = |i: PageInfoView, p: Seq<char>| page_info_step(i, p);
        let ghost init = PageInfoView { id: 0, file_name: Seq::empty() };
        let ghost ps = views(parts@);
        let mut info = PageInfo { id: 0, file_name: String::new() };
        let mut i: usize = 0;
        proof {
            assert(ps.take(0) =~= Seq::<Seq<char>>::empty());
        }
        while i < parts.len()
            invariant
                i <= parts.len(),
                ps == views(parts@),
                step == (|i: PageInfoView, p: Seq<char>| page_info_step(i, p)),
                init == (PageInfoView { id: 0, file_name: Seq::empty() }),
                page_info_spec(s@) == fold_parts(ps, init, step),
                fold_parts(ps.take(i as int), init, step) == Parsed::Value(info@),
            decreases parts.len() - i,
        {
            proof {
                lemma_fold_parts_step(ps, i as int, init, step);
                assert(ps[i as int] == parts@[i as int]@);
            }
            match info.apply_part(parts[i].as_slice()) {
                Ok(()) => {},
                Err(e) => {
                    proof {
                        lemma_fold_parts_stops(ps, i + 1, init, step);
                    }
                    return Err(e);
                },
            }
            i = i + 1;
        }
        proof {
            assert(ps.take(parts.len() as int) =~= ps);
        }
        Ok(info)
    }
}

/// A `char` line of a description: where a glyph lies in the texture and
/// how it is placed.
#[derive(Debug, Clone, Copy, PartialEq, Eq, Structural)]
pub struct PageChar {
    pub id: usize,
    pub x: i32,
    pub y: i32,
    pub width: i32,
    pub height: i32,
    pub x_offset: i32,
    pub y_offset: i32,
    pub x_advance: i32,
    pub y_advance: i32,
    pub page_id: usize,
    pub channel: i32,
}

/// Every field zero.
pub open spec fn empty_page_char() -> PageChar {
    PageChar {
        id: 0,
        x: 0,
        y: 0,
        width: 0,
        height: 0,
        x_offset: 0,
        y_offset: 0,
        x_advance: 0,
        y_advance: 0,
        page_id: 0,
        channel: 0,
    }
}

/// One piece of a `char` line applied to `pc`. A piece with a known key
/// and no `=` makes the reader panic; a piece with another key is skipped.
pub open spec fn char_step(pc: PageChar, part: Seq<char>) -> Parsed<PageChar> {
    let kv = split(part, '=');
    let key = kv[0];
    if key == "id"@ {
        set_second_usize(pc, kv, |c: PageChar, v: usize| PageChar { id: v, ..c })
    } else if key == "x"@ {
        set_second_int(pc, kv, |c: PageChar, v: i32| PageChar { x: v, ..c })
    } else if key == "y"@ {
        set_second_int(pc, kv, |c: PageChar, v: i32| PageChar { y: v, ..c })
    } else if key == "width"@ {
        set_second_int(pc, kv, |c: PageChar, v: i32| PageChar { width: v, ..c })
    } else if key == "height"@ {
        set_second_int(pc, kv, |c: PageChar, v: i32| PageChar { height: v, ..c })
    } else if key == "xoffset"@ {
        set_second_int(pc, kv, |c: PageChar, v: i32| PageChar { x_offset: v, ..c })
    } else if key == "yoffset"@ {
        set_second_int(pc, kv, |c: PageChar, v: i32| PageChar { y_offset: v, ..c })
    } else if key == "xadvance"@ {
        set_second_int(pc, kv, |c: PageChar, v: i32| PageChar { x_advance: v, ..c })
    } else if key == "yadvance"@ {
        set_second_int(pc, kv, |c: PageChar, v: i32| PageChar { y_advance: v, ..c })
    } else if key == "page"@ {
        set_second_usize(pc, kv, |c: PageChar, v: usize| PageChar { page_id: v, ..c })
    } else if key == "chnl"@ {
        set_second_int(pc, kv, |c: PageChar, v: i32| PageChar { channel: v, ..c })
    } else {
        Parsed::Value(pc)
    }
}

/// Each piece `key=value` of a `char` line whose value reads as a number
/// sets the field of that key to the number, and only that field: `x`,
/// `y`, `width`, `height`, `xoffset`, `yoffset`, `xadvance`, `yadvance`
/// and `chnl` as `i32`s, `id` and `page` as `usize`s.
pub proof fn law_char_piece_sets_its_field(pc: PageChar, part: Seq<char>)
    requires
        split(part, '=').len() >= 2,
    ensures
        ({
            let kv = split(part, '=');
            let key = kv[0];
            let r = char_step(pc, part);
            &&& int_of(kv[1]) is Ok ==> {
                let v = int_of(kv[1])->Ok_0;
                &&& key == "x"@ ==> r == Parsed::Value(PageChar { x: v, ..pc })
                &&& key == "y"@ ==> r == Parsed::Value(PageChar { y: v, ..pc })
                &&& key == "width"@ ==> r == Parsed::Value(PageChar { width: v, ..pc })
                &&& key == "height"@ ==> r == Parsed::Value(PageChar { height: v, ..pc })
                &&& key == "xoffset"@ ==> r == Parsed::Value(PageChar { x_offset: v, ..pc })
                &&& key == "yoffset"@ ==> r == Parsed::Value(PageChar { y_offset: v, ..pc })
                &&& key == "xadvance"@ ==> r == Parsed::Value(PageChar { x_advance: v, ..pc })
                &&& key == "yadvance"@ ==> r == Parsed::Value(PageChar { y_advance: v, ..pc })
                &&& key == "chnl"@ ==> r == Parsed::Value(PageChar { channel: v, ..pc })
            }
            &&& usize_of(kv[1]) is Ok ==> {
                let v = usize_of(kv[1])->Ok_0;
                &&& key == "id"@ ==> r == Parsed::Value(PageChar { id: v, ..pc })
                &&& key == "page"@ ==> r == Parsed::Value(PageChar { page_id: v, ..pc })
            }
        }),
{
    reveal_strlit("id");
    reveal_strlit("x");
    reveal_strlit("y");
    reveal_strlit("width");
    reveal_strlit("height");
    reveal_strlit("xoffset");
    reveal_strlit("yoffset");
    reveal_strlit("xadvance");
    reveal_strlit("yadvance");
    reveal_strlit("page");
    reveal_strlit("chnl");
    assert("x"@[0] != "y"@[0]);
    assert("xoffset"@[0] != "yoffset"@[0]);
    assert("xadvance"@[0] != "yadvance"@[0]);
    assert("page"@[0] != "chnl"@[0]);
    assert("x"@.len() == 1 && "y"@.len() == 1 && "id"@.len() == 2 && "page"@.len() == 4 && "chnl"@.len() == 4);
    assert("width"@.len() == 5 && "height"@.len() == 6 && "xoffset"@.len() == 7 && "yoffset"@.len() == 7);
    assert("xadvance"@.len() == 8 && "yadvance"@.len() == 8);
}

/// A `char` line read piece by piece between spaces, from all zeros.
pub open spec fn page_char_spec(s: Seq<char>) -> Parsed<PageChar> {
    fold_parts(split(s, ' '), empty_page_char(), |c: PageChar, p: Seq<char>| char_step(c, p))
}

/// Reads the second piece of `kv` as an `i32`.
fn second_int(kv: &Vec<Vec<char>>) -> (r: Result<i32, ParseFontError>)
    requires
        kv.len() >= 2,
    ensures
        match r {
            Ok(v) => int_of(kv@[1]@) == Ok::<i32, IntErrorKind>(v),
            Err(e) => exists|k: IntErrorKind|
                int_of(kv@[1]@) == Err::<i32, IntErrorKind>(k) && e@ == FontErrorView::IntParseError(k),
        },
{
    int_field(kv[1].as_slice())
}

/// Reads the second piece of `kv` as a `usize`.
fn second_usize(kv: &Vec<Vec<char>>) -> (r: Result<usize, ParseFontError>)
    requires
        kv.len() >= 2,
    ensures
        match r {
            Ok(v) => usize_of(kv@[1]@) == Ok::<usize, IntErrorKind>(v),
            Err(e) => exists|k: IntErrorKind|
                usize_of(kv@[1]@) == Err::<usize, IntErrorKind>(k) && e@
                    == FontErrorView::IntParseError(k),
        },
{
    usize_field(kv[1].as_slice())
}

impl View for PageChar {
    type V = PageChar;

    open spec fn view(&self) -> PageChar {
        *self
    }
}

impl PageChar {
    fn apply_part(&mut self, part: &[char]) -> (r: ReadOutcome<()>)
        ensures
            match r {
                ReadOutcome::Value(_) => char_step(*old(self), part@) == Parsed::Value(*final(self)),
                ReadOutcome::Error(e) => char_step(*old(self), part@) == Parsed::<PageChar>::Error(e@),
                ReadOutcome::Panic => char_step(*old(self), part@) is Panic,
            },
    {
        let kv = split_chars(part, '=');
        proof {
            lemma_split_nonempty(part@, '=');
            assert(views(kv@)[0] == kv@[0]@);
            if kv.len() >= 2 {
                assert(views(kv@)[1] == kv@[1]@);
            }
        }
        let key = kv[0].as_slice();
        if is_key(key, "id") {
            if kv.len() < 2 {
                return ReadOutcome::Panic;
            }
            match second_usize(&kv) {
                Ok(v) => self.id = v,
                Err(e) => return ReadOutcome::Error(e),
            }
        } else if is_key(key, "x") {
            if kv.len() < 2 {
                return ReadOutcome::Panic;
            }
            match second_int(&kv) {
                Ok(v) => self.x = v,
                Err(e) => return ReadOutcome::Error(e),
            }
        } else if is_key(key, "y") {
            if kv.len() < 2 {
                return ReadOutcome::Panic;
            }
            match second_int(&kv) {
                Ok(v) => self.y = v,
                Err(e) => return ReadOutcome::Error(e),
            }
        } else if is_key(key, "width") {
            if kv.len() < 2 {
                return ReadOutcome::Panic;
            }
            match second_int(&kv) {
                Ok(v) => self.width = v,
                Err(e) => return ReadOutcome::Error(e),
            }
        } else if is_key(key, "height") {
            if kv.len() < 2 {
                return ReadOutcome::Panic;
            }
            match second_int(&kv) {
                Ok(v) => self.height = v,
                Err(e) => return ReadOutcome::Error(e),
            }
        } else if is_key(key, "xoffset") {
            if kv.len() < 2 {
                return ReadOutcome::Panic;
            }
            match second_int(&kv) {
                Ok(v) => self.x_offset = v,
                Err(e) => return ReadOutcome::Error(e),
            }
        } else if is_key(key, "yoffset") {
            if kv.len() < 2 {
                return ReadOutcome::Panic;
            }
            match second_int(&kv) {
                Ok(v) => self.y_offset = v,
                Err(e) => return ReadOutcome::Error(e),
            }
        } else if is_key(key, "xadvance") {
            if kv.len() < 2 {
                return ReadOutcome::Panic;
            }
            match second_int(&kv) {
                Ok(v) => self.x_advance = v,
                Err(e) => return ReadOutcome::Error(e),
            }
        } else if is_key(key, "yadvance") {
            if kv.len() < 2 {
                return ReadOutcome::Panic;
            }
            match second_int(&kv) {
                Ok(v) => self.y_advance = v,
                Err(e) => return ReadOutcome::Error(e),
            }
        } else if is_key(key, "page") {
            if kv.len() < 2 {
                return ReadOutcome::Panic;
            }
            match second_usize(&kv) {
                Ok(v) => self.page_id = v,
                Err(e) => return ReadOutcome::Error(e),
            }
        } else if is_key(key, "chnl") {
            if kv.len() < 2 {
                return ReadOutcome::Panic;
            }
            match second_int(&kv) {
                Ok(v) => self.channel = v,
                Err(e) => return ReadOutcome::Error(e),
            }
        }
        ReadOutcome::Value(())
    }

    /// Reads a `char` line of a description.
    pub fn from_str(s: &str) -> (r: Result<PageChar, ParseFontError>)
        requires
            !(page_char_spec(s@) is Panic),
        ensures
            match r {
                Ok(v) => page_char_spec(s@) == Parsed::Value(v),
                Err(e) => page_char_spec(s@) == Parsed::<PageChar>::Error(e@),
            },
    {
        let cs = chars_of(s);
        match Self::read(cs.as_slice()) {
            ReadOutcome::Value(v) => Ok(v),
            ReadOutcome::Error(e) => Err(e),
            ReadOutcome::Panic => Err(ParseFontError::GeneralError),
        }
    }

    fn read(s: &[char]) -> (r: ReadOutcome<PageChar>)
        ensures
            r@ == page_char_spec(s@),
    {
        let parts = split_chars(s, ' ');
        let ghost step = |c: PageChar, p: Seq<char>| char_step(c, p);
        let ghost ps = views(parts@);
        let mut pc = PageChar {
            id: 0,
            x: 0,
            y: 0,
            width: 0,
            height: 0,
            x_offset: 0,
            y_offset: 0,
            x_advance: 0,
            y_advance: 0,
            page_id: 0,
            channel: 0,
        };
        let mut i: usize = 0;
        proof {
            assert(ps.take(0) =~= Seq::<Seq<char>>::empty());
        }
        while i < parts.len()
            invariant
                i <= parts.len(),
                ps == views(parts@),
                step == (|c: PageChar, p: Seq<char>| char_step(c, p)),
                page_char_spec(s@) == fold_parts(ps, empty_page_char(), step),
                fold_parts(ps.take(i as int), empty_page_char(), step) == Parsed::Value(pc),
            decreases parts.len() - i,
        {
            proof {
                lemma_fold_parts_step(ps, i as int, empty_page_char(), step);
                assert(ps[i as int] == parts@[i as int]@);
            }
            match pc.apply_part(parts[i].as_slice()) {
                ReadOutcome::Value(_) => {},
                ReadOutcome::Error(e) => {
                    proof {
                        lemma_fold_parts_stops(ps, i + 1, empty_page_char(), step);
                    }
                    return ReadOutcome::Error(e);
                },
                ReadOutcome::Panic => {
                    proof {
                        lemma_fold_parts_stops(ps, i + 1, empty_page_char(), step);
                    }
                    return ReadOutcome::Panic;
                },
            }
            i = i + 1;
        }
        proof {
            assert(ps.take(parts.len() as int) =~= ps);
        }
        ReadOutcome::Value(pc)
    }
}

/// A `kerning` line of a description: how much closer or further apart
/// two glyphs stand.
#[derive(Debug, Clone, Copy, PartialEq, Eq, Structural)]
pub struct Kerning {
    pub first_id: usize,
    pub second_id: usize,
    pub amount: i32,
}

/// One piece of a `kerning` line applied to `k`, as `char_step` does.
pub open spec fn kerning_step(k: Kerning, part: Seq<char>) -> Parsed<Kerning> {
    let kv = split(part, '=');
    let key = kv[0];
    if key == "first"@ {
        set_second_usize(k, kv, |c: Kerning, v: usize| Kerning { first_id: v, ..c })
    } else if key == "second"@ {
        set_second_usize(k, kv, |c: Kerning, v: usize| Kerning { second_id: v, ..c })
    } else if key == "amount"@ {
        set_second_int(k, kv, |c: Kerning, v: i32| Kerning { amount: v, ..c })
    } else {
        Parsed::Value(k)
    }
}

/// A `kerning` line read piece by piece between spaces, from all zeros.
pub open spec fn kerning_spec(s: Seq<char>) -> Parsed<Kerning> {
    fold_parts(
        split(s, ' '),
        Kerning { first_id: 0, second_id: 0, amount: 0 },
        |k: Kerning, p: Seq<char>| kerning_step(k, p),
    )
}

impl View for Kerning {
    type V = Kerning;

    open spec fn view(&self) -> Kerning {
        *self
    }
}

impl Kerning {
    fn apply_part(&mut self, part: &[char]) -> (r: ReadOutcome<()>)
        ensures
            match r {
                ReadOutcome::Value(_) => kerning_step(*old(self), part@) == Parsed::Value(*final(self)),
                ReadOutcome::Error(e) => kerning_step(*old(self), part@) == Parsed::<Kerning>::Error(e@),
                ReadOutcome::Panic => kerning_step(*old(self), part@) is Panic,
            },
    {
        let kv = split_chars(part, '=');
        proof {
            lemma_split_nonempty(part@, '=');
            assert(views(kv@)[0] == kv@[0]@);
            if kv.len() >= 2 {
                assert(views(kv@)[1] == kv@[1]@);
            }
        }
        let key = kv[0].as_slice();
        if is_key(key, "first") {
            if kv.len() < 2 {
                return ReadOutcome::Panic;
            }
            match second_usize(&kv) {
                Ok(v) => self.first_id = v,
                Err(e) => return ReadOutcome::Error(e),
            }
        } else if is_key(key, "second") {
            if kv.len() < 2 {
                return ReadOutcome::Panic;
            }
            match second_usize(&kv) {
                Ok(v) => self.second_id = v,
                Err(e) => return ReadOutcome::Error(e),
            }
        } else if is_key(key, "amount") {
            if kv.len() < 2 {
                return ReadOutcome::Panic;
            }
            match second_int(&kv) {
                Ok(v) => self.amount = v,
                Err(e) => return ReadOutcome::Error(e),
            }
        }
        ReadOutcome::Value(())
    }

    /// Reads a `kerning` line of a description.
    pub fn from_str(s: &str) -> (r: Result<Kerning, ParseFontError>)
        requires
            !(kerning_spec(s@) is Panic),
        ensures
            match r {
                Ok(v) => kerning_spec(s@) == Parsed::Value(v),
                Err(e) => kerning_spec(s@) == Parsed::<Kerning>::Error(e@),
            },
    {
        let cs = chars_of(s);
        match Self::read(cs.as_slice()) {
            ReadOutcome::Value(v) => Ok(v),
            ReadOutcome::Error(e) => Err(e),
            ReadOutcome::Panic => Err(ParseFontError::GeneralError),
        }
    }

    fn read(s: &[char]) -> (r: ReadOutcome<Kerning>)
        ensures
            r@ == kerning_spec(s@),
    {
        let parts = split_chars(s, ' ');
        let ghost step = |k: Kerning, p: Seq<char>| kerning_step(k, p);
        let ghost init = Kerning { first_id: 0, second_id: 0, amount: 0 };
        let ghost ps = views(parts@);
        let mut kern = Kerning { first_id: 0, second_id: 0, amount: 0 };
        let mut i: usize = 0;
        proof {
            assert(ps.take(0) =~= Seq::<Seq<char>>::empty());
        }
        while i < parts.len()
            invariant
                i <= parts.len(),
                ps == views(parts@),
                step == (|k: Kerning, p: Seq<char>| kerning_step(k, p)),
                init == (Kerning { first_id: 0, second_id: 0, amount: 0 }),
                kerning_spec(s@) == fold_parts(ps, init, step),
                fold_parts(ps.take(i as int), init, step) == Parsed::Value(kern),
            decreases parts.len() - i,
        {
            proof {
                lemma_fold_parts_step(ps, i as int, init, step);
                assert(ps[i as int] == parts@[i as int]@);
            }
            match kern.apply_part(parts[i].as_slice()) {
                ReadOutcome::Value(_) => {},
                ReadOutcome::Error(e) => {
                    proof {
                        lemma_fold_parts_stops(ps, i + 1, init, step);
                    }
                    return ReadOutcome::Error(e);
                },
                ReadOutcome::Panic => {
                    proof {
                        lemma_fold_parts_stops(ps, i + 1, init, step);
                    }
                    return ReadOutcome::Panic;
                },
            }
            i = i + 1;
        }
        proof {
            assert(ps.take(parts.len() as int) =~= ps);
        }
        ReadOutcome::Value(kern)
    }
}

/// What a reader of one line adds to the list read so far.
pub open spec fn collect_step<T>(f: spec_fn(Seq<char>) -> Parsed<T>) -> spec_fn(
    Seq<T>,
    Seq<char>,
) -> Parsed<Seq<T>> {
    |acc: Seq<T>, l: Seq<char>|
        match f(l) {
            Parsed::Value(x) => Parsed::Value(acc.push(x)),
            Parsed::Error(e) => Parsed::Error(e),
            Parsed::Panic => Parsed::Panic,
        }
}

/// The lines `ls` read with `f` one after the other; stops at the first
/// error or panic.
pub open spec fn parse_all<T>(ls: Seq<Seq<char>>, f: spec_fn(Seq<char>) -> Parsed<T>) -> Parsed<
    Seq<T>,
> {
    fold_parts(ls, Seq::empty(), collect_step(f))
}

/// The page part of a description: its page line, its glyphs and its
/// kernings.
#[derive(Debug, Clone)]
pub struct Page {
    pub info: PageInfo,
    pub chars: Vec<PageChar>,
    pub kernings: Vec<Kerning>,
}

/// A `Page` with its texts as characters and its lists as sequences.
pub struct PageView {
    pub info: PageInfoView,
    pub chars: Seq<PageChar>,
    pub kernings: Seq<Kerning>,
}

impl View for Page {
    type V = PageView;

    open spec fn view(&self) -> PageView {
        PageView { info: self.info@, chars: self.chars@, kernings: self.kernings@ }
    }
}

/// The page part read line by line: the page line; one line that is
/// skipped (`chars count=..`); the lines that start with `char`, each a
/// glyph; one line that is skipped (`kernings count=..`); the lines that
/// start with `kerning`, each a kerning. The rest is not read. A missing
/// page line or skipped line is an error with its own text.
pub open spec fn page_spec(s: Seq<char>) -> Parsed<PageView> {
    let ls = lines(s);
    if ls.len() == 0 {
        Parsed::Error(FontErrorView::ParsePageError("No page info line"@))
    } else {
        match page_info_spec(ls[0]) {
            Parsed::Value(info) => if ls.len() < 2 {
                Parsed::Error(FontErrorView::ParsePageError("No chars info line"@))
            } else {
                let nc: int = leading(ls.skip(2), "char"@, true) as int;
                match parse_all(ls.subrange(2, 2 + nc), |l: Seq<char>| page_char_spec(l)) {
                    Parsed::Value(chars) => if ls.len() <= 2 + nc {
                        Parsed::Error(FontErrorView::ParsePageError("No kernings info line"@))
                    } else {
                        let nk: int = leading(ls.skip(3 + nc), "kerning"@, true) as int;
                        match parse_all(
                            ls.subrange(3 + nc, 3 + nc + nk),
                            |l: Seq<char>| kerning_spec(l),
                        ) {
                            Parsed::Value(ks) => Parsed::Value(
                                PageView { info, chars, kernings: ks },
                            ),
                            Parsed::Error(e) => Parsed::Error(e),
                            Parsed::Panic => Parsed::Panic,
                        }
                    },
                    Parsed::Error(e) => Parsed::Error(e),
                    Parsed::Panic => Parsed::Panic,
                }
            },
            Parsed::Error(e) => Parsed::Error(e),
            Parsed::Panic => Parsed::Panic,
        }
    }
}

/// Reads the glyph lines `from..from + n` of `ls`.
fn read_chars(ls: &Vec<Vec<char>>, from: usize, n: usize) -> (r: ReadOutcome<Vec<PageChar>>)
    requires
        from + n <= ls.len(),
    ensures
        r@ == parse_all(views(ls@).subrange(from as int, from + n), |l: Seq<char>| page_char_spec(l)),
{
    let ghost sub = views(ls@).subrange(from as int, from + n);
    let ghost step = collect_step(|l: Seq<char>| page_char_spec(l));
    let mut v: Vec<PageChar> = Vec::new();
    let mut j: usize = 0;
    proof {
        assert(sub.take(0) =~= Seq::<Seq<char>>::empty());
    }
    while j < n
        invariant
            j <= n,
            from + n <= ls.len(),
            sub == views(ls@).subrange(from as int, from + n),
            step == collect_step(|l: Seq<char>| page_char_spec(l)),
            fold_parts(sub.take(j as int), Seq::<PageChar>::empty(), step) == Parsed::Value(v@),
        decreases n - j,
    {
        proof {
            lemma_fold_parts_step(sub, j as int, Seq::<PageChar>::empty(), step);
            assert(sub[j as int] == ls@[from + j]@);
        }
        match PageChar::read(ls[from + j].as_slice()) {
            ReadOutcome::Value(x) => {
                v.push(x);
            },
            ReadOutcome::Error(e) => {
                proof {
                    lemma_fold_parts_stops(sub, j + 1, Seq::<PageChar>::empty(), step);
                }
                return ReadOutcome::Error(e);
            },
            ReadOutcome::Panic => {
                proof {
                    lemma_fold_parts_stops(sub, j + 1, Seq::<PageChar>::empty(), step);
                }
                return ReadOutcome::Panic;
            },
        }
        j = j + 1;
    }
    proof {
        assert(sub.take(n as int) =~= sub);
    }
    ReadOutcome::Value(v)
}

/// Reads the kerning lines `from..from + n` of `ls`.
fn read_kernings(ls: &Vec<Vec<char>>, from: usize, n: usize) -> (r: ReadOutcome<Vec<Kerning>>)
    requires
        from + n <= ls.len(),
    ensures
        r@ == parse_all(views(ls@).subrange(from as int, from + n), |l: Seq<char>| kerning_spec(l)),
{
    let ghost sub = views(ls@).subrange(from as int, from + n);
    let ghost step = collect_step(|l: Seq<char>| kerning_spec(l));
    let mut v: Vec<Kerning> = Vec::new();
    let mut j: usize = 0;
    proof {
        assert(sub.take(0) =~= Seq::<Seq<char>>::empty());
    }
    while j < n
        invariant
            j <= n,
            from + n <= ls.len(),
            sub == views(ls@).subrange(from as int, from + n),
            step == collect_step(|l: Seq<char>| kerning_spec(l)),
            fold_parts(sub.take(j as int), Seq::<Kerning>::empty(), step) == Parsed::Value(v@),
        decreases n - j,
    {
        proof {
            lemma_fold_parts_step(sub, j as int, Seq::<Kerning>::empty(), step);
            assert(sub[j as int] == ls@[from + j]@);
        }
        match Kerning::read(ls[from + j].as_slice()) {
            ReadOutcome::Value(x) => {
                v.push(x);
            },
            ReadOutcome::Error(e) => {
                proof {
                    lemma_fold_parts_stops(sub, j + 1, Seq::<Kerning>::empty(), step);
                }
                return ReadOutcome::Error(e);
            },
            ReadOutcome::Panic => {
                proof {
                    lemma_fold_parts_stops(sub, j + 1, Seq::<Kerning>::empty(), step);
                }
                return ReadOutcome::Panic;
            },
        }
        j = j + 1;
    }
    proof {
        assert(sub.take(n as int) =~= sub);
    }
    ReadOutcome::Value(v)
}

impl Page {
    /// Reads the page part of a description.
    pub fn from_str(s: &str) -> (r: Result<Page, ParseFontError>)
        requires
            !(page_spec(s@) is Panic),
        ensures
            match r {
                Ok(page) => page_spec(s@) == Parsed::Value(page@),
                Err(e) => page_spec(s@) == Parsed::<PageView>::Error(e@),
            },
    {
        let cs = chars_of(s);
        match Self::read(cs.as_slice()) {
            ReadOutcome::Value(page) => Ok(page),
            ReadOutcome::Error(e) => Err(e),
            ReadOutcome::Panic => Err(ParseFontError::GeneralError),
        }
    }

    fn read(s: &[char]) -> (r: ReadOutcome<Page>)
        ensures
            r@ == page_spec(s@),
    {
        let ls = lines_of(s);
        let ghost lv = lines(s@);
        if ls.len() == 0 {
            return ReadOutcome::Error(ParseFontError::ParsePageError("No page info line".to_owned()));
        }
        proof {
            assert(lv[0] == ls@[0]@);
        }
        let info = match PageInfo::from_chars(ls[0].as_slice()) {
            Ok(i) => i,
            Err(e) => return ReadOutcome::Error(e),
        };
        if ls.len() < 2 {
            return ReadOutcome::Error(ParseFontError::ParsePageError("No chars info line".to_owned()));
        }
        let nc = count_leading(ls.as_slice(), 2, "char", true);
        let chars = match read_chars(&ls, 2, nc) {
            ReadOutcome::Value(v) => v,
            ReadOutcome::Error(e) => return ReadOutcome::Error(e),
            ReadOutcome::Panic => return ReadOutcome::Panic,
        };
        if ls.len() <= 2 + nc {
            return ReadOutcome::Error(
                ParseFontError::ParsePageError("No kernings info line".to_owned()),
            );
        }
        let nk = count_leading(ls.as_slice(), 3 + nc, "kerning", true);
        let kernings = match read_kernings(&ls, 3 + nc, nk) {
            ReadOutcome::Value(v) => v,
            ReadOutcome::Error(e) => return ReadOutcome::Error(e),
            ReadOutcome::Panic => return ReadOutcome::Panic,
        };
        ReadOutcome::Value(Page { info, chars, kernings })
    }
}

/// A whole `.fnt` description read as `FontInfo` and `Page`: the lines
/// before the first one that starts with `page ` are joined by spaces and
/// read as the info; the lines from there on are joined by newlines and
/// read as the page. An error of the info comes before one of the page.
pub open spec fn fnt_spec(s: Seq<char>) -> Parsed<(FontInfoView, PageView)> {
    let ls = lines(s);
    let n = leading(ls, "page "@, false);
    match info_spec(join(ls.take(n as int), " "@)) {
        Parsed::Value(info) => match page_spec(join(ls.skip(n as int), "\n"@)) {
            Parsed::Value(page) => Parsed::Value((info, page)),
            Parsed::Error(e) => Parsed::Error(e),
            Parsed::Panic => Parsed::Panic,
        },
        Parsed::Error(e) => Parsed::Error(e),
        Parsed::Panic => Parsed::Panic,
    }
}

/// Reads a whole `.fnt` font description, or tells that the reader
/// panics on it. The image that the page names is not read here.
pub fn read_fnt(text: &str) -> (r: ReadOutcome<(FontInfo, Page)>)
    ensures
        r@ == fnt_spec(text@),
{
    let cs = chars_of(text);
    let ls = lines_of(cs.as_slice());
    let n = count_leading(ls.as_slice(), 0, "page ", false);
    proof {
        assert(views(ls@).skip(0) =~= views(ls@));
        assert(views(ls@).subrange(0, n as int) =~= views(ls@).take(n as int));
        assert(views(ls@).subrange(n as int, ls.len() as int) =~= views(ls@).skip(n as int));
    }
    let info_text = join_chars(ls.as_slice(), 0, n, " ");
    let info = match FontInfo::read(info_text.as_slice()) {
        ReadOutcome::Value(i) => i,
        ReadOutcome::Error(e) => return ReadOutcome::Error(e),
        ReadOutcome::Panic => return ReadOutcome::Panic,
    };
    let page_text = join_chars(ls.as_slice(), n, ls.len(), "\n");
    let page = match Page::read(page_text.as_slice()) {
        ReadOutcome::Value(p) => p,
        ReadOutcome::Error(e) => return ReadOutcome::Error(e),
        ReadOutcome::Panic => return ReadOutcome::Panic,
    };
    ReadOutcome::Value((info, page))
}

/// Reads a whole `.fnt` font description, on which the reader does not
/// panic. The image that the page names is not read here.
pub fn parse_fnt(text: &str) -> (r: Result<(FontInfo, Page), ParseFontError>)
    requires
        !(fnt_spec(text@) is Panic),
    ensures
        match r {
            Ok((info, page)) => fnt_spec(text@) == Parsed::Value((info@, page@)),
            Err(e) => fnt_spec(text@) == Parsed::<(FontInfoView, PageView)>::Error(e@),
        },
{
    match read_fnt(text) {
        ReadOutcome::Value(v) => Ok(v),
        ReadOutcome::Error(e) => Err(e),
        ReadOutcome::Panic => Err(ParseFontError::GeneralError),
    }
}

} // verus!
