//! The image directive parser.
//!
//! A directive block is a `.. image:: path` line directly followed by zero or
//! more field lines — spaces, then one of `:height: v`, `:width: v`,
//! `:scale: v%`, `:alt: v`, `:align: v`, then a newline. Fields may repeat;
//! within one block the last occurrence of a kind wins. Each block is
//! rewritten into an `<img>` tag; text outside blocks is copied through.
//!
//! Two long-standing quirks of this output format are kept on purpose,
//! because emitted pages depend on them: the rendered height mirrors the
//! *width* capture (the height field's own value is discarded), and the style
//! attribute writes `height;V;` (with a semicolon) but `width:V;` (with a
//! colon).

use vstd::prelude::*;

use crate::rst_parser::rst_error::RSTError;
use crate::rst_parser::text::{
    chars_to_string, copy_range, find_from, find_from_exec, lemma_find_from, lemma_skip_spaces,
    push_str_chars, skip_spaces, skip_spaces_exec, str_to_chars,
};

verus! {

/// The five recognized field kinds of an image block.
#[derive(Clone, Copy, Debug, PartialEq, Eq, Structural)]
pub enum FieldKind {
    Height,
    Width,
    Scale,
    Alt,
    Align,
}

/// The values captured by the field lines of one block, one slot per kind.
pub struct FieldCaps {
    pub height: Option<Seq<char>>,
    pub width: Option<Seq<char>>,
    pub scale: Option<Seq<char>>,
    pub alt: Option<Seq<char>>,
    pub align: Option<Seq<char>>,
}

/// No field captured yet.
pub open spec fn no_caps() -> FieldCaps {
    FieldCaps { height: None, width: None, scale: None, alt: None, align: None }
}

/// Overwrites the slot of `k` with `v`: a later field of a kind wins.
pub open spec fn caps_set(c: FieldCaps, k: FieldKind, v: Seq<char>) -> FieldCaps {
    match k {
        FieldKind::Height => FieldCaps { height: Some(v), ..c },
        FieldKind::Width => FieldCaps { width: Some(v), ..c },
        FieldKind::Scale => FieldCaps { scale: Some(v), ..c },
        FieldKind::Alt => FieldCaps { alt: Some(v), ..c },
        FieldKind::Align => FieldCaps { align: Some(v), ..c },
    }
}

/// The slot of `k` in `c`.
pub open spec fn caps_get(c: FieldCaps, k: FieldKind) -> Option<Seq<char>> {
    match k {
        FieldKind::Height => c.height,
        FieldKind::Width => c.width,
        FieldKind::Scale => c.scale,
        FieldKind::Alt => c.alt,
        FieldKind::Align => c.align,
    }
}

/// The length of the keyword of `k`, `:` and trailing space included.
pub open spec fn key_len(k: FieldKind) -> int {
    match k {
        FieldKind::Height => 9,
        FieldKind::Width => 8,
        FieldKind::Scale => 8,
        FieldKind::Alt => 6,
        FieldKind::Align => 8,
    }
}

/// The keyword of `k` (`:height: ` and so on) stands at `q`.
pub open spec fn key_at(t: Seq<char>, q: int, k: FieldKind) -> bool {
    &&& 0 <= q
    &&& q + key_len(k) <= t.len()
    &&& match k {
        FieldKind::Height => t[q] == ':' && t[q + 1] == 'h' && t[q + 2] == 'e' && t[q + 3] == 'i'
            && t[q + 4] == 'g' && t[q + 5] == 'h' && t[q + 6] == 't' && t[q + 7] == ':' && t[q + 8]
            == ' ',
        FieldKind::Width => t[q] == ':' && t[q + 1] == 'w' && t[q + 2] == 'i' && t[q + 3] == 'd'
            && t[q + 4] == 't' && t[q + 5] == 'h' && t[q + 6] == ':' && t[q + 7] == ' ',
        FieldKind::Scale => t[q] == ':' && t[q + 1] == 's' && t[q + 2] == 'c' && t[q + 3] == 'a'
            && t[q + 4] == 'l' && t[q + 5] == 'e' && t[q + 6] == ':' && t[q + 7] == ' ',
        FieldKind::Alt => t[q] == ':' && t[q + 1] == 'a' && t[q + 2] == 'l' && t[q + 3] == 't' && t[
            q + 4
        ] == ':' && t[q + 5] == ' ',
        FieldKind::Align => t[q] == ':' && t[q + 1] == 'a' && t[q + 2] == 'l' && t[q + 3] == 'i'
            && t[q + 4] == 'g' && t[q + 5] == 'n' && t[q + 6] == ':' && t[q + 7] == ' ',
    }
}

/// Which field keyword, if any, stands at `q`. The keywords are mutually
/// exclusive, so at most one can.
pub open spec fn field_kind_at(t: Seq<char>, q: int) -> Option<FieldKind> {
    if key_at(t, q, FieldKind::Height) {
        Some(FieldKind::Height)
    } else if key_at(t, q, FieldKind::Width) {
        Some(FieldKind::Width)
    } else if key_at(t, q, FieldKind::Scale) {
        Some(FieldKind::Scale)
    } else if key_at(t, q, FieldKind::Alt) {
        Some(FieldKind::Alt)
    } else if key_at(t, q, FieldKind::Align) {
        Some(FieldKind::Align)
    } else {
        None
    }
}

/// Matches one field line at `p`: spaces, a keyword, a value running to the
/// line's end, a terminating newline. A scale value must end in `%`. Returns
/// the kind, the value and the position past the newline.
pub open spec fn field_line_match(t: Seq<char>, p: int) -> Option<(FieldKind, Seq<char>, int)> {
    let q = skip_spaces(t, p);
    match field_kind_at(t, q) {
        None => None,
        Some(k) => {
            let v_lo = q + key_len(k);
            let e = find_from(t, v_lo, '\n');
            if e < t.len() && (!(k is Scale) || (e > v_lo && t[e - 1] == '%')) {
                Some((k, t.subrange(v_lo, e), e + 1))
            } else {
                None
            }
        },
    }
}

/// Consumes field lines from `p` while they match, each overwriting its
/// kind's slot; returns the final captures and the position where the block
/// ends.
pub open spec fn fields_from(t: Seq<char>, p: int, acc: FieldCaps) -> (FieldCaps, int)
    decreases t.len() - p,
        when 0 <= p <= t.len()
{
    match field_line_match(t, p) {
        None => (acc, p),
        Some((k, v, e)) => {
            proof {
                lemma_skip_spaces(t, p);
                lemma_find_from(t, skip_spaces(t, p) + key_len(k), '\n');
            }
            fields_from(t, e, caps_set(acc, k, v))
        },
    }
}

/// The field lines of the block starting at `p`, in order: kind and value of
/// each.
pub open spec fn field_lines_from(t: Seq<char>, p: int) -> Seq<(FieldKind, Seq<char>)>
    decreases t.len() - p,
        when 0 <= p <= t.len()
{
    match field_line_match(t, p) {
        None => Seq::empty(),
        Some((k, v, e)) => {
            proof {
                lemma_skip_spaces(t, p);
                lemma_find_from(t, skip_spaces(t, p) + key_len(k), '\n');
            }
            seq![(k, v)] + field_lines_from(t, e)
        },
    }
}

/// The value of the last line of kind `k` among `lines`, if any.
pub open spec fn last_value_of(lines: Seq<(FieldKind, Seq<char>)>, k: FieldKind) -> Option<
    Seq<char>,
>
    decreases lines.len(),
{
    if lines.len() == 0 {
        None
    } else {
        let rest = last_value_of(lines.drop_first(), k);
        if rest is Some {
            rest
        } else if lines[0].0 == k {
            Some(lines[0].1)
        } else {
            None
        }
    }
}

/// Where a block's field scan ends, between `p` and the end of the text.
pub proof fn lemma_fields_from_bounds(t: Seq<char>, p: int, acc: FieldCaps)
    requires
        0 <= p <= t.len(),
    ensures
        p <= fields_from(t, p, acc).1 <= t.len(),
    decreases t.len() - p,
{
    match field_line_match(t, p) {
        None => {},
        Some((k, v, e)) => {
            lemma_skip_spaces(t, p);
            lemma_find_from(t, skip_spaces(t, p) + key_len(k), '\n');
            lemma_fields_from_bounds(t, e, caps_set(acc, k, v));
        },
    }
}

/// The prefix `.. image:: ` stands at `i`.
pub open spec fn is_image_prefix(t: Seq<char>, i: int) -> bool {
    &&& 0 <= i
    &&& i + 11 <= t.len()
    &&& t[i] == '.'
    &&& t[i + 1] == '.'
    &&& t[i + 2] == ' '
    &&& t[i + 3] == 'i'
    &&& t[i + 4] == 'm'
    &&& t[i + 5] == 'a'
    &&& t[i + 6] == 'g'
    &&& t[i + 7] == 'e'
    &&& t[i + 8] == ':'
    &&& t[i + 9] == ':'
    &&& t[i + 10] == ' '
}

/// Where the directive line of a block at `i` ends.
pub open spec fn img_line_end(t: Seq<char>, i: int) -> int {
    find_from(t, i + 11, '\n')
}

/// An image block begins at `i`: the prefix, a path line, a terminating
/// newline.
pub open spec fn img_at(t: Seq<char>, i: int) -> bool {
    is_image_prefix(t, i) && img_line_end(t, i) < t.len()
}

/// The captured path of a block at `i`: the rest of the directive line.
pub open spec fn img_file(t: Seq<char>, i: int) -> Seq<char>
    recommends
        img_at(t, i),
{
    t.subrange(i + 11, img_line_end(t, i))
}

/// The field captures of a block at `i`.
pub open spec fn img_caps(t: Seq<char>, i: int) -> FieldCaps
    recommends
        img_at(t, i),
{
    fields_from(t, img_line_end(t, i) + 1, no_caps()).0
}

/// The position just past a block at `i`, its field lines included.
pub open spec fn img_end(t: Seq<char>, i: int) -> int
    recommends
        img_at(t, i),
{
    fields_from(t, img_line_end(t, i) + 1, no_caps()).1
}

/// An image record as the contracts see it.
pub struct ImageView {
    pub image_file: Seq<char>,
    pub height: Option<Seq<char>>,
    pub width: Option<Seq<char>>,
    pub alt: Option<Seq<char>>,
    pub align: Option<Seq<char>>,
}

/// The record a matched block yields. Both the height and the width of the
/// record take the block's *width* capture; the height capture is discarded.
/// A deliberate quirk of the format, pinned by the test fixtures.
pub open spec fn image_record(file: Seq<char>, caps: FieldCaps) -> ImageView {
    ImageView {
        image_file: file,
        height: caps.width,
        width: caps.width,
        alt: caps.alt,
        align: caps.align,
    }
}

/// The `<img>` tag a record renders to. The style value writes `height;V;`
/// (semicolon after the word) but `width:V;` (colon): a deliberate
/// punctuation asymmetry, kept bit for bit.
pub open spec fn img_html(v: ImageView) -> Seq<char> {
    "<img src=\""@ + v.image_file + "\""@ + (match v.alt {
        Some(a) => " alt=\""@ + a + "\""@,
        None => Seq::<char>::empty(),
    }) + " style=\""@ + (match v.height {
        Some(h) => "height;"@ + h + ";"@,
        None => Seq::<char>::empty(),
    }) + (match v.width {
        Some(w) => "width:"@ + w + ";"@,
        None => Seq::<char>::empty(),
    }) + "\">"@
}

/// The text from position `i` on with every image block replaced by its
/// `<img>` tag.
pub open spec fn resolve_images_from(t: Seq<char>, i: int) -> Seq<char>
    decreases t.len() - i,
{
    if i < 0 || i >= t.len() {
        Seq::empty()
    } else if img_at(t, i) {
        proof {
            lemma_find_from(t, i + 11, '\n');
            lemma_fields_from_bounds(t, img_line_end(t, i) + 1, no_caps());
        }
        img_html(image_record(img_file(t, i), img_caps(t, i))) + resolve_images_from(
            t,
            img_end(t, i),
        )
    } else {
        seq![t[i]] + resolve_images_from(t, i + 1)
    }
}

/// What image resolution returns.
pub open spec fn resolve_images_spec(t: Seq<char>) -> Seq<char> {
    resolve_images_from(t, 0)
}

/// An index range of `t` capturing `v`, if `v` was captured.
pub open spec fn opt_range_matches(
    t: Seq<char>,
    r: Option<(usize, usize)>,
    v: Option<Seq<char>>,
) -> bool {
    match v {
        Some(s) => r matches Some(w) && w.0 <= w.1 <= t.len() && t.subrange(
            w.0 as int,
            w.1 as int,
        ) == s,
        None => r is None,
    }
}

/// Matches a field keyword at `q`.
fn key_match_exec(t: &Vec<char>, q: usize) -> (r: Option<FieldKind>)
    requires
        q <= t@.len(),
    ensures
        r is None ==> field_kind_at(t@, q as int) is None,
        r matches Some(k) ==> field_kind_at(t@, q as int) == Some(k),
{
    let n = t.len();
    if n - q >= 9 && t[q] == ':' && t[q + 1] == 'h' && t[q + 2] == 'e' && t[q + 3] == 'i' && t[q
        + 4] == 'g' && t[q + 5] == 'h' && t[q + 6] == 't' && t[q + 7] == ':' && t[q + 8] == ' ' {
        return Some(FieldKind::Height);
    }
    if n - q >= 8 && t[q] == ':' && t[q + 1] == 'w' && t[q + 2] == 'i' && t[q + 3] == 'd' && t[q
        + 4] == 't' && t[q + 5] == 'h' && t[q + 6] == ':' && t[q + 7] == ' ' {
        return Some(FieldKind::Width);
    }
    if n - q >= 8 && t[q] == ':' && t[q + 1] == 's' && t[q + 2] == 'c' && t[q + 3] == 'a' && t[q
        + 4] == 'l' && t[q + 5] == 'e' && t[q + 6] == ':' && t[q + 7] == ' ' {
        return Some(FieldKind::Scale);
    }
    if n - q >= 6 && t[q] == ':' && t[q + 1] == 'a' && t[q + 2] == 'l' && t[q + 3] == 't' && t[q
        + 4] == ':' && t[q + 5] == ' ' {
        return Some(FieldKind::Alt);
    }
    if n - q >= 8 && t[q] == ':' && t[q + 1] == 'a' && t[q + 2] == 'l' && t[q + 3] == 'i' && t[q
        + 4] == 'g' && t[q + 5] == 'n' && t[q + 6] == ':' && t[q + 7] == ' ' {
        return Some(FieldKind::Align);
    }
    None
}

/// Matches one field line at `p`; on success returns the kind, the bounds of
/// the value and the position past the line.
fn field_line_exec(t: &Vec<char>, p: usize) -> (r: Option<(FieldKind, usize, usize, usize)>)
    requires
        p <= t@.len(),
    ensures
        r is None ==> field_line_match(t@, p as int) is None,
        r matches Some(m) ==> {
            &&& field_line_match(t@, p as int) == Some(
                (m.0, t@.subrange(m.1 as int, m.2 as int), m.3 as int),
            )
            &&& m.1 <= m.2 <= t@.len()
            &&& p < m.3 <= t@.len()
        },
{
    let n = t.len();
    let q = skip_spaces_exec(t, p);
    proof {
        lemma_skip_spaces(t@, p as int);
    }
    match key_match_exec(t, q) {
        None => None,
        Some(k) => {
            let klen: usize = match k {
                FieldKind::Height => 9,
                FieldKind::Width => 8,
                FieldKind::Scale => 8,
                FieldKind::Alt => 6,
                FieldKind::Align => 8,
            };
            proof {
                assert(klen as int == key_len(k));
                assert(q + key_len(k) <= t@.len());
            }
            let v_lo = q + klen;
            let e = find_from_exec(t, v_lo, '\n');
            proof {
                lemma_find_from(t@, v_lo as int, '\n');
            }
            if e == n {
                return None;
            }
            if match k {
                FieldKind::Scale => e == v_lo || t[e - 1] != '%',
                _ => false,
            } {
                return None;
            }
            Some((k, v_lo, e, e + 1))
        },
    }
}

/// The bounds of everything one image block captured.
struct ImgMatch {
    file_lo: usize,
    file_hi: usize,
    height: Option<(usize, usize)>,
    width: Option<(usize, usize)>,
    alt: Option<(usize, usize)>,
    align: Option<(usize, usize)>,
    end: usize,
}

/// Matches an image block at `i`.
fn img_match_exec(t: &Vec<char>, i: usize) -> (r: Option<ImgMatch>)
    requires
        i < t@.len(),
    ensures
        r is None ==> !img_at(t@, i as int),
        r matches Some(m) ==> {
            &&& img_at(t@, i as int)
            &&& m.file_lo <= m.file_hi <= t@.len()
            &&& t@.subrange(m.file_lo as int, m.file_hi as int) == img_file(t@, i as int)
            &&& opt_range_matches(t@, m.height, img_caps(t@, i as int).height)
            &&& opt_range_matches(t@, m.width, img_caps(t@, i as int).width)
            &&& opt_range_matches(t@, m.alt, img_caps(t@, i as int).alt)
            &&& opt_range_matches(t@, m.align, img_caps(t@, i as int).align)
            &&& m.end as int == img_end(t@, i as int)
            &&& i < m.end <= t@.len()
        },
{
    let n = t.len();
    if n - i < 11 {
        return None;
    }
    if !(t[i] == '.' && t[i + 1] == '.' && t[i + 2] == ' ' && t[i + 3] == 'i' && t[i + 4] == 'm'
        && t[i + 5] == 'a' && t[i + 6] == 'g' && t[i + 7] == 'e' && t[i + 8] == ':' && t[i + 9]
        == ':' && t[i + 10] == ' ') {
        return None;
    }
    let k = find_from_exec(t, i + 11, '\n');
    proof {
        lemma_find_from(t@, i + 11, '\n');
    }
    if k == n {
        return None;
    }
    let mut p = k + 1;
    let mut height: Option<(usize, usize)> = None;
    let mut width: Option<(usize, usize)> = None;
    let mut alt: Option<(usize, usize)> = None;
    let mut align: Option<(usize, usize)> = None;
    let ghost mut gcaps = no_caps();
    loop
        invariant
            k + 1 <= p <= t@.len(),
            fields_from(t@, k + 1 as int, no_caps()) == fields_from(t@, p as int, gcaps),
            opt_range_matches(t@, height, gcaps.height),
            opt_range_matches(t@, width, gcaps.width),
            opt_range_matches(t@, alt, gcaps.alt),
            opt_range_matches(t@, align, gcaps.align),
        ensures
            k + 1 <= p <= t@.len(),
            fields_from(t@, k + 1 as int, no_caps()) == fields_from(t@, p as int, gcaps),
            opt_range_matches(t@, height, gcaps.height),
            opt_range_matches(t@, width, gcaps.width),
            opt_range_matches(t@, alt, gcaps.alt),
            opt_range_matches(t@, align, gcaps.align),
            field_line_match(t@, p as int) is None,
        decreases t@.len() - p,
    {
        match field_line_exec(t, p) {
            None => {
                break ;
            },
            Some((kind, v_lo, v_hi, e)) => {
                match kind {
                    FieldKind::Height => {
                        height = Some((v_lo, v_hi));
                    },
                    FieldKind::Width => {
                        width = Some((v_lo, v_hi));
                    },
                    FieldKind::Scale => {},
                    FieldKind::Alt => {
                        alt = Some((v_lo, v_hi));
                    },
                    FieldKind::Align => {
                        align = Some((v_lo, v_hi));
                    },
                }
                proof {
                    gcaps = caps_set(gcaps, kind, t@.subrange(v_lo as int, v_hi as int));
                }
                p = e;
            },
        }
    }
    proof {
        assert(fields_from(t@, p as int, gcaps) == (gcaps, p as int));
    }
    Some(ImgMatch { file_lo: i + 11, file_hi: k, height, width, alt, align, end: p })
}

/// The view of an optional string.
pub open spec fn opt_view(o: Option<String>) -> Option<Seq<char>> {
    match o {
        Some(s) => Some(s@),
        None => None,
    }
}

/// One image directive, as captured from a block.
#[derive(Debug)]
pub struct RSTImage {
    /// File location.
    pub image_file: String,
    /// Rendered height. Mirrors the width capture; see [`image_record`].
    pub height: Option<String>,
    /// Rendered width.
    pub width: Option<String>,
    /// Alt text.
    pub alt: Option<String>,
    /// Alignment: captured, reserved, never emitted.
    pub align: Option<String>,
}

impl View for RSTImage {
    type V = ImageView;

    open spec fn view(&self) -> ImageView {
        ImageView {
            image_file: self.image_file@,
            height: opt_view(self.height),
            width: opt_view(self.width),
            alt: opt_view(self.alt),
            align: opt_view(self.align),
        }
    }
}

impl RSTImage {
    /// Builds a record from a block's captures. The `height` capture is
    /// accepted and discarded: the record's height mirrors the width capture,
    /// as the test fixtures pin it. Fails only when the mandatory
    /// `file_name` capture is absent.
    #[allow(unused_variables)]
    pub fn from_captures(
        file_name: Option<String>,
        height: Option<String>,
        width: Option<String>,
        alt: Option<String>,
        align: Option<String>,
    ) -> (r: Result<RSTImage, RSTError>)
        ensures
            file_name matches Some(f) ==> r matches Ok(img) && img@ == image_record(
                f@,
                FieldCaps {
                    height: opt_view(height),
                    width: opt_view(width),
                    scale: None,
                    alt: opt_view(alt),
                    align: opt_view(align),
                },
            ),
            file_name is None ==> (r matches Err(RSTError::MissingField(m)) && m@ == "file_name"@),
    {
        match file_name {
            None => Err(RSTError::MissingField("file_name")),
            Some(f) => {
                let (h, w) = match width {
                    Some(w) => (Some(w.clone()), Some(w)),
                    None => (None, None),
                };
                Ok(RSTImage { image_file: f, height: h, width: w, alt, align })
            },
        }
    }

    /// Renders the record as an `<img>` tag: the source, the alt text if
    /// present, then the style attribute with the record's height (written
    /// `height;V;`) and width (written `width:V;`).
    pub fn to_html(&self) -> (r: String)
        ensures
            r@ == img_html(self@),
    {
        let mut h: Vec<char> = Vec::new();
        push_str_chars(&mut h, "<img src=\"");
        push_str_chars(&mut h, self.image_file.as_str());
        push_str_chars(&mut h, "\"");
        if let Some(alt) = &self.alt {
            push_str_chars(&mut h, " alt=\"");
            push_str_chars(&mut h, alt.as_str());
            push_str_chars(&mut h, "\"");
        }
        push_str_chars(&mut h, " style=\"");
        if let Some(height) = &self.height {
            push_str_chars(&mut h, "height;");
            push_str_chars(&mut h, height.as_str());
            push_str_chars(&mut h, ";");
        }
        if let Some(width) = &self.width {
            push_str_chars(&mut h, "width:");
            push_str_chars(&mut h, width.as_str());
            push_str_chars(&mut h, ";");
        }
        push_str_chars(&mut h, "\">");
        proof {
            assert(h@ =~= img_html(self@));
        }
        chars_to_string(&h)
    }
}

/// Renders the image directives of `string` as HTML `<img>` tags.
///
/// Every block — a `.. image:: path` line with its indented field lines — is
/// replaced by the tag its captures render to; all other text is kept
/// unchanged. Total: no input makes it fail.
pub fn parse_images(string: &str) -> (r: Result<String, RSTError>)
    ensures
        r matches Ok(s) && s@ == resolve_images_spec(string@),
{
    let t = str_to_chars(string);
    let mut out: Vec<char> = Vec::new();
    let mut i: usize = 0;
    while i < t.len()
        invariant
            i <= t@.len(),
            out@ + resolve_images_from(t@, i as int) == resolve_images_from(t@, 0),
        decreases t@.len() - i,
    {
        let ghost out0 = out@;
        match img_match_exec(&t, i) {
            Some(m) => {
                let ghost rec = image_record(img_file(t@, i as int), img_caps(t@, i as int));
                let file = chars_to_string(&copy_range(&t, m.file_lo, m.file_hi));
                let height = match m.height {
                    Some((lo, hi)) => Some(chars_to_string(&copy_range(&t, lo, hi))),
                    None => None,
                };
                let width = match m.width {
                    Some((lo, hi)) => Some(chars_to_string(&copy_range(&t, lo, hi))),
                    None => None,
                };
                let alt = match m.alt {
                    Some((lo, hi)) => Some(chars_to_string(&copy_range(&t, lo, hi))),
                    None => None,
                };
                let align = match m.align {
                    Some((lo, hi)) => Some(chars_to_string(&copy_range(&t, lo, hi))),
                    None => None,
                };
                let img = match RSTImage::from_captures(Some(file), height, width, alt, align) {
                    Ok(img) => img,
                    Err(_) => vstd::pervasive::unreached(),
                };
                proof {
                    assert(img@ == rec);
                }
                let html = img.to_html();
                push_str_chars(&mut out, html.as_str());
                proof {
                    assert(resolve_images_from(t@, i as int) == img_html(rec)
                        + resolve_images_from(t@, m.end as int));
                    assert(out0 + img_html(rec) + resolve_images_from(t@, m.end as int) =~= out0 + (
                    img_html(rec) + resolve_images_from(t@, m.end as int)));
                }
                i = m.end;
            },
            None => {
                proof {
                    assert(resolve_images_from(t@, i as int) == seq![t@[i as int]]
                        + resolve_images_from(t@, i + 1));
                }
                out.push(t[i]);
                proof {
                    assert(out@ =~= out0.push(t@[i as int]));
                    assert(out0.push(t@[i as int]) + resolve_images_from(t@, i + 1) =~= out0 + (
                    seq![t@[i as int]] + resolve_images_from(t@, i + 1)));
                }
                i = i + 1;
            },
        }
    }
    proof {
        assert(resolve_images_from(t@, t@.len() as int) == Seq::<char>::empty());
        assert(out@ =~= resolve_images_from(t@, 0));
    }
    Ok(chars_to_string(&out))
}

/// On input with no image block anywhere, image resolution returns its input
/// unchanged.
pub proof fn lemma_images_no_op(t: Seq<char>)
    requires
        forall|i: int| !img_at(t, i),
    ensures
        resolve_images_spec(t) == t,
{
    lemma_images_id(t, 0);
    assert(t.subrange(0, t.len() as int) =~= t);
}

proof fn lemma_images_id(t: Seq<char>, i: int)
    requires
        0 <= i <= t.len(),
        forall|j: int| !img_at(t, j),
    ensures
        resolve_images_from(t, i) == t.subrange(i, t.len() as int),
    decreases t.len() - i,
{
    if i >= t.len() {
        assert(t.subrange(i, t.len() as int) =~= Seq::<char>::empty());
    } else {
        lemma_images_id(t, i + 1);
        assert(resolve_images_from(t, i) == seq![t[i]] + resolve_images_from(t, i + 1));
        assert(seq![t[i]] + t.subrange(i + 1, t.len() as int) =~= t.subrange(i, t.len() as int));
    }
}

/// Within one block, the captured value of a kind is the value of the last
/// field line of that kind, starting from captures `acc`.
proof fn lemma_fields_from_last(t: Seq<char>, p: int, acc: FieldCaps, k: FieldKind)
    requires
        0 <= p <= t.len(),
    ensures
        caps_get(fields_from(t, p, acc).0, k) == match last_value_of(field_lines_from(t, p), k) {
            Some(v) => Some(v),
            None => caps_get(acc, k),
        },
    decreases t.len() - p,
{
    match field_line_match(t, p) {
        None => {
            assert(field_lines_from(t, p) == Seq::<(FieldKind, Seq<char>)>::empty());
        },
        Some((k2, v, e)) => {
            lemma_skip_spaces(t, p);
            lemma_find_from(t, skip_spaces(t, p) + key_len(k2), '\n');
            lemma_fields_from_last(t, e, caps_set(acc, k2, v), k);
            let lines = field_lines_from(t, p);
            assert(lines == seq![(k2, v)] + field_lines_from(t, e));
            assert(lines.drop_first() =~= field_lines_from(t, e));
            assert(lines[0] == (k2, v));
        },
    }
}

/// When a field kind repeats within one block, the last occurrence's value is
/// the one captured — and so the one that appears in the rendered tag.
pub proof fn lemma_repeated_field_last_wins(t: Seq<char>, p: int, k: FieldKind)
    requires
        0 <= p <= t.len(),
    ensures
        caps_get(fields_from(t, p, no_caps()).0, k) == last_value_of(field_lines_from(t, p), k),
{
    lemma_fields_from_last(t, p, no_caps(), k);
}

} // verus!
