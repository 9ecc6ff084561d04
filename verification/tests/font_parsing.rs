use gl_lib::text_rendering::chars::IntErrorKind;
use gl_lib::text_rendering::font::{
    parse_fnt, read_fnt, FontInfo, Kerning, Padding, Page, PageChar, PageInfo, ParseFontError, ReadOutcome,
};
use gl_lib::text_rendering::text_renderer::{TextAlignment, TextAlignmentX, TextAlignmentY, TextSize};

const ARIAL_LIKE: &str = "info face=\"Arial\" size=32 bold=0 italic=0 charset=\"\" unicode=1 stretchH=100 smooth=1 aa=1 padding=1,2,3,4 spacing=1,2 outline=0
common lineHeight=32 base=26 scaleW=256 scaleH=128 pages=1 packed=0 alphaChnl=1 redChnl=0 greenChnl=0 blueChnl=0
page id=0 file=\"Arial_0.png\"
chars count=2
char id=32   x=0     y=0     width=0     height=0     xoffset=0     yoffset=0     xadvance=8     page=0  chnl=15
char id=65   x=10     y=20     width=18     height=20     xoffset=-1     yoffset=6     xadvance=17     page=0  chnl=15
kernings count=1
kerning first=65  second=86  amount=-2
";

#[test]
fn parses_a_whole_description() {
    let (info, page) = parse_fnt(ARIAL_LIKE).unwrap();
    assert_eq!("\"Arial\"", info.face);
    assert_eq!(32, info.size);
    assert_eq!(100, info.stretch_h);
    assert_eq!(1, info.smooth);
    assert_eq!(1, info.aa);
    assert_eq!(Padding { top: 1, bottom: 2, left: 3, right: 4 }, info.padding);
    assert_eq!(1, info.spacing.x);
    assert_eq!(2, info.spacing.y);
    assert_eq!(32, info.line_height);
    assert_eq!(256, info.scale.w);
    assert_eq!(128, info.scale.h);
    assert_eq!(1, info.pages);
    assert!(!info.packed);

    assert_eq!(0, page.info.id);
    assert_eq!("Arial_0.png", page.info.file_name);
    assert_eq!(2, page.chars.len());
    assert_eq!(
        PageChar {
            id: 65,
            x: 10,
            y: 20,
            width: 18,
            height: 20,
            x_offset: -1,
            y_offset: 6,
            x_advance: 17,
            y_advance: 0,
            page_id: 0,
            channel: 15,
        },
        page.chars[1]
    );
    assert_eq!(vec![Kerning { first_id: 65, second_id: 86, amount: -2 }], page.kernings);
}

#[test]
fn windows_line_endings_are_read_too() {
    let text = ARIAL_LIKE.replace('\n', "\r\n");
    let (info, page) = parse_fnt(&text).unwrap();
    assert_eq!(1, info.pages);
    assert_eq!("Arial_0.png", page.info.file_name);
    assert_eq!(2, page.chars.len());
    assert_eq!(1, page.kernings.len());
}

#[test]
fn packed_is_true_for_a_positive_number() {
    let info = FontInfo::from_str("info packed=3").unwrap();
    assert!(info.packed);
    let info = FontInfo::from_str("info packed=0").unwrap();
    assert!(!info.packed);
}

#[test]
fn info_starts_empty_and_skips_unknown_keys() {
    let info = FontInfo::from_str("info bold=1 italic a=b=c").unwrap();
    let empty = FontInfo::empty();
    assert_eq!(empty.size, info.size);
    assert_eq!("", info.face);
    assert_eq!(Padding::empty(), info.padding);
}

#[test]
fn a_number_that_is_not_one_is_an_int_error() {
    let r = FontInfo::from_str("info size=abc");
    assert_eq!(Err(ParseFontError::IntParseError(IntErrorKind::InvalidDigit)), r.map(|i| i.size));
    let r = FontInfo::from_str("info size=");
    assert_eq!(Err(ParseFontError::IntParseError(IntErrorKind::Empty)), r.map(|i| i.size));
    let r = FontInfo::from_str("info size=3000000000");
    assert_eq!(Err(ParseFontError::IntParseError(IntErrorKind::PosOverflow)), r.map(|i| i.size));
    let r = FontInfo::from_str("info size=-3000000000");
    assert_eq!(Err(ParseFontError::IntParseError(IntErrorKind::NegOverflow)), r.map(|i| i.size));
    let r = FontInfo::from_str("info size=+-1");
    assert_eq!(Err(ParseFontError::IntParseError(IntErrorKind::InvalidDigit)), r.map(|i| i.size));
    let r = FontInfo::from_str("info size=+17");
    assert_eq!(Ok(17), r.map(|i| i.size));
    let r = FontInfo::from_str("info size=-2147483648");
    assert_eq!(Ok(i32::MIN), r.map(|i| i.size));
}

#[test]
fn padding_reads_four_numbers_in_order() {
    assert_eq!(Ok(Padding { top: 4, bottom: 3, left: 2, right: 1 }), Padding::from_str("4,3,2,1"));
    assert_eq!(Ok(Padding { top: 4, bottom: 3, left: 2, right: 1 }), Padding::from_str("4,3,2,1,9"));
    assert_eq!(
        Err(ParseFontError::IntParseError(IntErrorKind::InvalidDigit)),
        Padding::from_str("4,x,2,1")
    );
    assert_eq!(Err(ParseFontError::IntParseError(IntErrorKind::Empty)), Padding::from_str(",1,2,3"));
}

#[test]
fn page_line_reads_id_and_unquoted_file() {
    let info = PageInfo::from_str("page id=7 file=\"a\"b.png\"").unwrap();
    assert_eq!(7, info.id);
    assert_eq!("ab.png", info.file_name);
}

#[test]
fn unknown_key_on_page_line_is_an_error() {
    let r = PageInfo::from_str("page id=0 file=a.png foo=1");
    assert_eq!(
        Err(ParseFontError::ParsePageError("Parsing page info found unknown 'foo'".to_string())),
        r.map(|i| i.id)
    );
}

#[test]
fn negative_page_id_is_an_int_error() {
    let r = PageInfo::from_str("page id=-1");
    assert_eq!(Err(ParseFontError::IntParseError(IntErrorKind::InvalidDigit)), r.map(|i| i.id));
}

#[test]
fn char_and_kerning_lines() {
    let c = PageChar::from_str("char id=66 x=1 yadvance=5 chnl=3").unwrap();
    assert_eq!(66, c.id);
    assert_eq!(1, c.x);
    assert_eq!(5, c.y_advance);
    assert_eq!(3, c.channel);
    let k = Kerning::from_str("kerning first=1 second=2 amount=3").unwrap();
    assert_eq!(Kerning { first_id: 1, second_id: 2, amount: 3 }, k);
    assert_eq!(
        Err(ParseFontError::IntParseError(IntErrorKind::InvalidDigit)),
        Kerning::from_str("kerning first=a")
    );
}

#[test]
fn missing_page_lines_are_errors() {
    let no_page = "info size=1\ncommon lineHeight=2\n";
    assert_eq!(
        Err(ParseFontError::ParsePageError("No page info line".to_string())),
        parse_fnt(no_page).map(|_| ())
    );
    let no_chars = "info size=1\npage id=0 file=a.png\n";
    assert_eq!(
        Err(ParseFontError::ParsePageError("No chars info line".to_string())),
        parse_fnt(no_chars).map(|_| ())
    );
    let no_kernings = "info size=1\npage id=0 file=a.png\nchars count=1\nchar id=1\n";
    assert_eq!(
        Err(ParseFontError::ParsePageError("No kernings info line".to_string())),
        parse_fnt(no_kernings).map(|_| ())
    );
    assert_eq!(
        Err(ParseFontError::ParsePageError("No page info line".to_string())),
        Page::from_str("").map(|_| ())
    );
}

#[test]
fn info_error_comes_before_page_error() {
    let text = "info size=x\n";
    assert_eq!(
        Err(ParseFontError::IntParseError(IntErrorKind::InvalidDigit)),
        parse_fnt(text).map(|_| ())
    );
}

#[test]
fn lines_after_the_kernings_are_not_read() {
    let text = "info size=1\npage id=0 file=a.png\nchars count=0\nkernings count=0\nkerning first=1 second=2 amount=3\nrubbish\nkerning first=x\n";
    let (_, page) = parse_fnt(text).unwrap();
    assert_eq!(0, page.chars.len());
    assert_eq!(1, page.kernings.len());
}

#[test]
fn inputs_on_which_the_reader_panics_are_told_apart() {
    // No info line: the joined info text is shorter than five bytes.
    assert!(matches!(read_fnt("page id=0\nchars\nkernings\n"), ReadOutcome::Panic));
    // A padding with fewer than four numbers.
    assert!(matches!(read_fnt("info padding=1,2\npage id=0\nchars\nkernings\n"), ReadOutcome::Panic));
    // A spacing that is not a number.
    assert!(matches!(read_fnt("info spacing=a,1\npage id=0\nchars\nkernings\n"), ReadOutcome::Panic));
    // A known key of a glyph line without a value.
    assert!(matches!(read_fnt("info \npage id=0\nchars\nchar id\nkernings\n"), ReadOutcome::Panic));
    // A character cut by the five bytes of the info keyword.
    assert!(matches!(read_fnt("info\u{e9}x=1\npage id=0\nchars\nkernings\n"), ReadOutcome::Panic));
    assert!(matches!(read_fnt(ARIAL_LIKE), ReadOutcome::Value(_)));
    assert!(matches!(read_fnt("info size=q\n"), ReadOutcome::Error(_)));
}

#[test]
fn text_alignment_defaults_to_centre() {
    let a = TextAlignment::default();
    assert_eq!(TextAlignmentX::Center, a.x);
    assert_eq!(TextAlignmentY::Center, a.y);
    assert_eq!(TextAlignmentX::Center, TextAlignmentX::default());
    assert_eq!(TextAlignmentY::Center, TextAlignmentY::default());
    assert_ne!(TextSize::Small, TextSize::Scaled(3));
}
