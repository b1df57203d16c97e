//! The destination templates of the metadata strategies: literal text
//! and `{field}` placeholders naming a tag, container, EXIF or document
//! field, parsed and validated once against the strategy, then rendered
//! from one file's metadata. A field the file does not carry makes the
//! rendering fail: nothing is ever guessed.
use vstd::prelude::*;
use crate::config::{
    comp_view_at,
    find_char,
    find_from,
    lemma_find_char_bound,
    str_to_string_lit_empty_component,
    valid_dest,
    validate_rule_destination,
    OrganizeStrategy,
    SegError,
};
use crate::path::{components, comps_view, join, path_components, path_join, Comp};
use crate::text::{chars_of, concat, concat3, str_eq, str_trim, string_of, trim_seq};

verus! {

/// A field a metadata template can name.
#[derive(Debug, Clone, Copy, PartialEq, Eq, Structural)]
pub enum MetaField {
    Artist,
    Album,
    AlbumArtist,
    Genre,
    Track,
    Title,
    Year,
    Month,
    Day,
    Width,
    Height,
    Resolution,
    Codec,
    Duration,
    Fps,
    Camera,
    Author,
}

/// The placeholder text of a field.
pub open spec fn field_name(f: MetaField) -> Seq<char> {
    match f {
        MetaField::Artist => "artist"@,
        MetaField::Album => "album"@,
        MetaField::AlbumArtist => "album_artist"@,
        MetaField::Genre => "genre"@,
        MetaField::Track => "track"@,
        MetaField::Title => "title"@,
        MetaField::Year => "year"@,
        MetaField::Month => "month"@,
        MetaField::Day => "day"@,
        MetaField::Width => "width"@,
        MetaField::Height => "height"@,
        MetaField::Resolution => "resolution"@,
        MetaField::Codec => "codec"@,
        MetaField::Duration => "duration"@,
        MetaField::Fps => "fps"@,
        MetaField::Camera => "camera"@,
        MetaField::Author => "author"@,
    }
}

pub fn field_name_exec(f: MetaField) -> (r: &'static str)
    ensures
        r@ == field_name(f),
{
    match f {
        MetaField::Artist => "artist",
        MetaField::Album => "album",
        MetaField::AlbumArtist => "album_artist",
        MetaField::Genre => "genre",
        MetaField::Track => "track",
        MetaField::Title => "title",
        MetaField::Year => "year",
        MetaField::Month => "month",
        MetaField::Day => "day",
        MetaField::Width => "width",
        MetaField::Height => "height",
        MetaField::Resolution => "resolution",
        MetaField::Codec => "codec",
        MetaField::Duration => "duration",
        MetaField::Fps => "fps",
        MetaField::Camera => "camera",
        MetaField::Author => "author",
    }
}

/// The fields each metadata strategy offers.
pub open spec fn offers(st: OrganizeStrategy, f: MetaField) -> bool {
    match st {
        OrganizeStrategy::Audio => f == MetaField::Artist || f == MetaField::Album || f
            == MetaField::AlbumArtist || f == MetaField::Genre || f == MetaField::Track || f
            == MetaField::Title || f == MetaField::Year,
        OrganizeStrategy::Video => f == MetaField::Width || f == MetaField::Height || f
            == MetaField::Resolution || f == MetaField::Codec || f == MetaField::Year || f
            == MetaField::Duration || f == MetaField::Fps,
        OrganizeStrategy::Photos => f == MetaField::Camera || f == MetaField::Year || f
            == MetaField::Month || f == MetaField::Day,
        OrganizeStrategy::Documents => f == MetaField::Author || f == MetaField::Title || f
            == MetaField::Year || f == MetaField::Month || f == MetaField::Day,
        _ => false,
    }
}

/// The supported placeholders, as the error for an unknown one lists them.
pub open spec fn supported_list(st: OrganizeStrategy) -> Seq<char> {
    match st {
        OrganizeStrategy::Audio => "artist, album, album_artist, genre, track, title, year"@,
        OrganizeStrategy::Video => "width, height, resolution, codec, year, duration, fps"@,
        OrganizeStrategy::Photos => "camera, year, month, day"@,
        OrganizeStrategy::Documents => "author, title, year, month, day"@,
        _ => ""@,
    }
}

pub fn supported_list_exec(st: OrganizeStrategy) -> (r: &'static str)
    ensures
        r@ == supported_list(st),
{
    match st {
        OrganizeStrategy::Audio => "artist, album, album_artist, genre, track, title, year",
        OrganizeStrategy::Video => "width, height, resolution, codec, year, duration, fps",
        OrganizeStrategy::Photos => "camera, year, month, day",
        OrganizeStrategy::Documents => "author, title, year, month, day",
        _ => "",
    }
}

/// The field a placeholder name stands for, if any.
pub open spec fn name_field(name: Seq<char>) -> Option<MetaField> {
    if name == "artist"@ {
        Some(MetaField::Artist)
    } else if name == "album"@ {
        Some(MetaField::Album)
    } else if name == "album_artist"@ {
        Some(MetaField::AlbumArtist)
    } else if name == "genre"@ {
        Some(MetaField::Genre)
    } else if name == "track"@ {
        Some(MetaField::Track)
    } else if name == "title"@ {
        Some(MetaField::Title)
    } else if name == "year"@ {
        Some(MetaField::Year)
    } else if name == "month"@ {
        Some(MetaField::Month)
    } else if name == "day"@ {
        Some(MetaField::Day)
    } else if name == "width"@ {
        Some(MetaField::Width)
    } else if name == "height"@ {
        Some(MetaField::Height)
    } else if name == "resolution"@ {
        Some(MetaField::Resolution)
    } else if name == "codec"@ {
        Some(MetaField::Codec)
    } else if name == "duration"@ {
        Some(MetaField::Duration)
    } else if name == "fps"@ {
        Some(MetaField::Fps)
    } else if name == "camera"@ {
        Some(MetaField::Camera)
    } else if name == "author"@ {
        Some(MetaField::Author)
    } else {
        None
    }
}

/// The segment a placeholder name stands for under `st`: a field the
/// strategy offers.
pub open spec fn meta_placeholder(st: OrganizeStrategy, name: Seq<char>) -> Option<MetaSegment<Seq<char>>> {
    match name_field(name) {
        Some(f) => if offers(st, f) {
            Some(MetaSegment::Field(f))
        } else {
            None
        },
        None => None,
    }
}

fn offers_exec(st: OrganizeStrategy, f: MetaField) -> (r: bool)
    ensures
        r == offers(st, f),
{
    match st {
        OrganizeStrategy::Audio => match f {
            MetaField::Artist | MetaField::Album | MetaField::AlbumArtist | MetaField::Genre
            | MetaField::Track | MetaField::Title | MetaField::Year => true,
            _ => false,
        },
        OrganizeStrategy::Video => match f {
            MetaField::Width | MetaField::Height | MetaField::Resolution | MetaField::Codec
            | MetaField::Year | MetaField::Duration | MetaField::Fps => true,
            _ => false,
        },
        OrganizeStrategy::Photos => match f {
            MetaField::Camera | MetaField::Year | MetaField::Month | MetaField::Day => true,
            _ => false,
        },
        OrganizeStrategy::Documents => match f {
            MetaField::Author | MetaField::Title | MetaField::Year | MetaField::Month
            | MetaField::Day => true,
            _ => false,
        },
        _ => false,
    }
}

fn meta_placeholder_exec(st: OrganizeStrategy, name: &str) -> (r: Option<MetaSegment<String>>)
    ensures
        match r {
            Some(s) => meta_placeholder(st, name@) == Some(meta_seg_view(s)),
            None => meta_placeholder(st, name@) is None,
        },
{
    let f = if str_eq(name, "artist") {
        MetaField::Artist
    } else if str_eq(name, "album") {
        MetaField::Album
    } else if str_eq(name, "album_artist") {
        MetaField::AlbumArtist
    } else if str_eq(name, "genre") {
        MetaField::Genre
    } else if str_eq(name, "track") {
        MetaField::Track
    } else if str_eq(name, "title") {
        MetaField::Title
    } else if str_eq(name, "year") {
        MetaField::Year
    } else if str_eq(name, "month") {
        MetaField::Month
    } else if str_eq(name, "day") {
        MetaField::Day
    } else if str_eq(name, "width") {
        MetaField::Width
    } else if str_eq(name, "height") {
        MetaField::Height
    } else if str_eq(name, "resolution") {
        MetaField::Resolution
    } else if str_eq(name, "codec") {
        MetaField::Codec
    } else if str_eq(name, "duration") {
        MetaField::Duration
    } else if str_eq(name, "fps") {
        MetaField::Fps
    } else if str_eq(name, "camera") {
        MetaField::Camera
    } else if str_eq(name, "author") {
        MetaField::Author
    } else {
        return None;
    };
    if offers_exec(st, f) {
        Some(MetaSegment::Field(f))
    } else {
        None
    }
}

/// One piece of one metadata template component.
#[derive(Debug)]
pub enum MetaSegment<S> {
    Literal(S),
    Field(MetaField),
}

pub open spec fn meta_seg_view(s: MetaSegment<String>) -> MetaSegment<Seq<char>> {
    match s {
        MetaSegment::Literal(l) => MetaSegment::Literal(l@),
        MetaSegment::Field(f) => MetaSegment::Field(f),
    }
}

pub open spec fn meta_segs_view(v: Seq<MetaSegment<String>>) -> Seq<MetaSegment<Seq<char>>> {
    v.map_values(|s: MetaSegment<String>| meta_seg_view(s))
}

pub open spec fn meta_comps_view(v: Seq<Vec<MetaSegment<String>>>) -> Seq<Seq<MetaSegment<Seq<char>>>> {
    v.map_values(|c: Vec<MetaSegment<String>>| meta_segs_view(c@))
}

/// What a metadata template is: its strategy, source text and the parsed
/// segments of each path component.
pub struct MetaTemplateView {
    pub strategy: OrganizeStrategy,
    pub raw: Seq<char>,
    pub comps: Seq<Seq<MetaSegment<Seq<char>>>>,
}

/// A metadata strategy's destination template, parsed and validated once.
#[derive(Debug)]
pub struct MetadataTemplate {
    strategy: OrganizeStrategy,
    raw: String,
    components: Vec<Vec<MetaSegment<String>>>,
}

impl View for MetadataTemplate {
    type V = MetaTemplateView;

    closed spec fn view(&self) -> MetaTemplateView {
        MetaTemplateView { strategy: self.strategy, raw: self.raw@, comps: meta_comps_view(self.components@) }
    }
}

pub open spec fn meta_segs(st: OrganizeStrategy, rest: Seq<char>) -> Result<
    Seq<MetaSegment<Seq<char>>>,
    SegError<Seq<char>>,
>
    decreases rest.len(),
{
    let open = find_char(rest, '{');
    if open < 0 {
        if rest.len() == 0 {
            Ok(Seq::empty())
        } else {
            Ok(seq![MetaSegment::Literal(rest)])
        }
    } else {
        let lit: Seq<MetaSegment<Seq<char>>> = if open > 0 {
            seq![MetaSegment::Literal(rest.subrange(0, open))]
        } else {
            Seq::empty()
        };
        let close_rel = find_char(rest.subrange(open, rest.len() as int), '}');
        if close_rel < 0 {
            Err(SegError::Unterminated)
        } else {
            let close = open + close_rel;
            let name = rest.subrange(open + 1, close);
            match meta_placeholder(st, name) {
                None => Err(SegError::Unknown(name)),
                Some(seg) => if close + 1 <= rest.len() {
                    match meta_segs(st, rest.subrange(close + 1, rest.len() as int)) {
                        Ok(t) => Ok(lit + seq![seg] + t),
                        Err(e) => Err(e),
                    }
                } else {
                    Err(SegError::Unterminated)
                },
            }
        }
    }
}


pub open spec fn meta_component_spec(st: OrganizeStrategy, part: Seq<char>) -> Result<
    Seq<MetaSegment<Seq<char>>>,
    Seq<char>,
> {
    match meta_segs(st, part) {
        Err(SegError::Unterminated) => Err(
            "organize.template: unterminated placeholder in \""@ + part + "\""@,
        ),
        Err(SegError::Unknown(name)) => Err(
            "organize.template: unknown placeholder \"{"@ + name
                + "}\" (supported: "@ + supported_list(st) + ")"@,
        ),
        Ok(segs) => if segs.len() == 0 {
            Err("organize.template contains an empty path component"@)
        } else {
            Ok(segs)
        },
    }
}


fn meta_segs_from(v: &Vec<char>, start: usize, st: OrganizeStrategy) -> (r: Result<
    Vec<MetaSegment<String>>,
    SegError<String>,
>)
    requires
        start <= v@.len(),
    ensures
        match r {
            Ok(segs) => meta_segs(st, v@.subrange(start as int, v@.len() as int)) == Ok::<
                Seq<MetaSegment<Seq<char>>>,
                SegError<Seq<char>>,
            >(meta_segs_view(segs@)),
            Err(SegError::Unterminated) => meta_segs(st, v@.subrange(start as int, v@.len() as int))
                == Err::<Seq<MetaSegment<Seq<char>>>, SegError<Seq<char>>>(
                SegError::Unterminated,
            ),
            Err(SegError::Unknown(n)) => meta_segs(st, v@.subrange(start as int, v@.len() as int))
                == Err::<Seq<MetaSegment<Seq<char>>>, SegError<Seq<char>>>(
                SegError::Unknown(n@),
            ),
        },
    decreases v@.len() - start,
{
    let ghost rest = v@.subrange(start as int, v@.len() as int);
    let mut segs: Vec<MetaSegment<String>> = Vec::new();
    match find_from(v, start, '{') {
        None => {
            if start < v.len() {
                segs.push(MetaSegment::Literal(string_of(v, start, v.len())));
                assert(meta_segs_view(segs@) =~= seq![MetaSegment::Literal(rest)]);
            } else {
                assert(meta_segs_view(segs@) =~= Seq::<MetaSegment<Seq<char>>>::empty());
            }
            Ok(segs)
        },
        Some(open) => {
            let ghost open_rel = open - start;
            let ghost lit: Seq<MetaSegment<Seq<char>>> = if open_rel > 0 {
                seq![MetaSegment::Literal(rest.subrange(0, open_rel))]
            } else {
                Seq::empty()
            };
            if open > start {
                segs.push(MetaSegment::Literal(string_of(v, start, open)));
                assert(rest.subrange(0, open_rel) =~= v@.subrange(start as int, open as int));
            }
            assert(meta_segs_view(segs@) =~= lit);
            assert(v@.subrange(open as int, v@.len() as int) =~= rest.subrange(
                open_rel,
                rest.len() as int,
            ));
            proof {
                lemma_find_char_bound(rest, '{');
                assert(v@[open as int] == '{');
            }
            match find_from(v, open, '}') {
                None => Err(SegError::Unterminated),
                Some(close) => {
                    proof {
                        lemma_find_char_bound(v@.subrange(open as int, v@.len() as int), '}');
                    }
                    assert(close > open);
                    let vl = v.len();
                    assert(close < vl);
                    let name = string_of(v, open + 1, close);
                    assert(rest.subrange(open_rel + 1, close - start) =~= v@.subrange(
                        open + 1,
                        close as int,
                    ));
                    let seg = match meta_placeholder_exec(st, name.as_str()) {
                        Some(s) => s,
                        None => {
                            return Err(SegError::Unknown(name));
                        },
                    };
                    assert(v@.subrange(close + 1, v@.len() as int) =~= rest.subrange(
                        close - start + 1,
                        rest.len() as int,
                    ));
                    match meta_segs_from(v, close + 1, st) {
                        Err(e) => Err(e),
                        Ok(tail) => {
                            let ghost head = meta_segs_view(segs@);
                            let ghost sv = meta_seg_view(seg);
                            let ghost tv = meta_segs_view(tail@);
                            segs.push(seg);
                            assert(meta_segs_view(segs@) =~= head.push(sv));
                            let ghost base = segs@;
                            let ghost tail_seq = tail@;
                            let mut tail = tail;
                            segs.append(&mut tail);
                            proof {
                                lemma_meta_segs_view_concat(base, tail_seq);
                            }
                            assert(meta_segs_view(segs@) =~= head + seq![sv] + tv);
                            assert(meta_placeholder(st, rest.subrange(open_rel + 1, close - start))
                                == Some(sv));
                            assert(meta_segs_view(segs@) == lit + seq![sv] + tv);
                            Ok(segs)
                        },
                    }
                },
            }
        },
    }
}


proof fn lemma_meta_segs_view_concat(a: Seq<MetaSegment<String>>, b: Seq<MetaSegment<String>>)
    ensures
        meta_segs_view(a + b) == meta_segs_view(a) + meta_segs_view(b),
{
    assert(meta_segs_view(a + b) =~= meta_segs_view(a) + meta_segs_view(b));
}



pub fn meta_component(st: OrganizeStrategy, part: &str) -> (r: Result<Vec<MetaSegment<String>>, String>)
    ensures
        match r {
            Ok(segs) => meta_component_spec(st, part@) == Ok::<
                Seq<MetaSegment<Seq<char>>>,
                Seq<char>,
            >(meta_segs_view(segs@)),
            Err(e) => meta_component_spec(st, part@) == Err::<
                Seq<MetaSegment<Seq<char>>>,
                Seq<char>,
            >(e@),
        },
{
    let v = chars_of(part);
    assert(v@.subrange(0, v@.len() as int) =~= v@);
    match meta_segs_from(&v, 0, st) {
        Err(SegError::Unterminated) => Err(
            concat3("organize.template: unterminated placeholder in \"", part, "\""),
        ),
        Err(SegError::Unknown(name)) => Err(
            {
                let a = concat3("organize.template: unknown placeholder \"{", name.as_str(), "}\" (supported: ");
                concat3(a.as_str(), supported_list_exec(st), ")")
            },
        ),
        Ok(segs) => {
            if segs.len() == 0 {
                Err(str_to_string_lit_empty_component())
            } else {
                Ok(segs)
            }
        },
    }
}


pub open spec fn meta_parse_all(st: OrganizeStrategy, cs: Seq<Comp<Seq<char>>>) -> Result<
    Seq<Seq<MetaSegment<Seq<char>>>>,
    Seq<char>,
>
    decreases cs.len(),
{
    if cs.len() == 0 {
        Ok(Seq::empty())
    } else {
        match meta_parse_all(st, cs.drop_last()) {
            Err(e) => Err(e),
            Ok(prev) => match cs.last() {
                Comp::Normal(part) => match meta_component_spec(st, part) {
                    Err(e) => Err(e),
                    Ok(segs) => Ok(prev.push(segs)),
                },
                _ => Ok(prev),
            },
        }
    }
}


pub open spec fn meta_template_parse(st: OrganizeStrategy, raw: Seq<char>) -> Result<MetaTemplateView, Seq<char>> {
    if trim_seq(raw).len() == 0 {
        Err("organize.template must not be empty"@)
    } else if !valid_dest(raw) {
        Err(
            "organize.template \""@ + raw
                + "\" is not a safe relative path (no leading '/', no '..', no empty components)"@,
        )
    } else {
        match meta_parse_all(st, components(raw)) {
            Err(e) => Err(e),
            Ok(comps) => Ok(MetaTemplateView { strategy: st, raw, comps }),
        }
    }
}


proof fn lemma_meta_parse_all_err(st: OrganizeStrategy, cs: Seq<Comp<Seq<char>>>, i: int, e: Seq<char>)
    requires
        0 <= i <= cs.len(),
        meta_parse_all(st, cs.subrange(0, i)) == Err::<Seq<Seq<MetaSegment<Seq<char>>>>, Seq<char>>(
            e,
        ),
    ensures
        meta_parse_all(st, cs.subrange(0, cs.len() as int)) == Err::<
            Seq<Seq<MetaSegment<Seq<char>>>>,
            Seq<char>,
        >(e),
    decreases cs.len() - i,
{
    if i < cs.len() {
        assert(cs.subrange(0, i + 1).drop_last() =~= cs.subrange(0, i));
        lemma_meta_parse_all_err(st, cs, i + 1, e);
    }
}



impl MetadataTemplate {
    /// Parses and statically validates a template for strategy `st`: the
    /// text must be a safe relative path, and every component must parse
    /// with only the placeholders `st` offers.

    pub fn parse(raw: &str, st: OrganizeStrategy) -> (r: Result<Self, String>)
        ensures
            match r {
                Ok(t) => meta_template_parse(st, raw@) == Ok::<MetaTemplateView, Seq<char>>(t@),
                Err(e) => meta_template_parse(st, raw@) == Err::<MetaTemplateView, Seq<char>>(e@),
            },
    {
        let t = str_trim(raw);
        if t.unicode_len() == 0 {
            return Err(crate::text::str_to_string("organize.template must not be empty"));
        }
        if !validate_rule_destination(raw) {
            return Err(
                concat3(
                    "organize.template \"",
                    raw,
                    "\" is not a safe relative path (no leading '/', no '..', no empty components)",
                ),
            );
        }
        let cs = path_components(raw);
        let mut parsed: Vec<Vec<MetaSegment<String>>> = Vec::new();
        let mut i: usize = 0;
        assert(comps_view(cs@).subrange(0, 0) =~= Seq::<Comp<Seq<char>>>::empty());
        assert(meta_comps_view(parsed@) =~= Seq::<Seq<MetaSegment<Seq<char>>>>::empty());
        while i < cs.len()
            invariant
                i <= cs@.len(),
                trim_seq(raw@).len() != 0,
                valid_dest(raw@),
                comps_view(cs@) == components(raw@),
                meta_parse_all(st, comps_view(cs@).subrange(0, i as int)) == Ok::<
                    Seq<Seq<MetaSegment<Seq<char>>>>,
                    Seq<char>,
                >(meta_comps_view(parsed@)),
            decreases cs@.len() - i,
        {
            let ghost cv = comps_view(cs@);
            assert(cv.subrange(0, i + 1).drop_last() =~= cv.subrange(0, i as int));
            assert(cv.subrange(0, i + 1).last() == comp_view_at(cs@, i as int));
            match &cs[i] {
                Comp::Normal(part) => {
                    match meta_component(st, part.as_str()) {
                        Err(e) => {
                            proof {
                                lemma_meta_parse_all_err(st, comps_view(cs@), i + 1, e@);
                                assert(comps_view(cs@).subrange(0, cs@.len() as int) =~= comps_view(
                                    cs@,
                                ));
                            }
                            return Err(e);
                        },
                        Ok(segs) => {
                            let ghost before = parsed@;
                            parsed.push(segs);
                            assert(meta_comps_view(parsed@) =~= meta_comps_view(before).push(
                                meta_segs_view(segs@),
                            ));
                        },
                    }
                },
                _ => {},
            }
            i += 1;
        }
        assert(comps_view(cs@).subrange(0, cs@.len() as int) =~= comps_view(cs@));
        Ok(MetadataTemplate { strategy: st, raw: crate::text::str_to_string(raw), components: parsed })
    }

    pub fn raw(&self) -> (r: &str)
        ensures
            r@ == self@.raw,
    {
        self.raw.as_str()
    }

    pub fn components_ref(&self) -> (r: &Vec<Vec<MetaSegment<String>>>)
        ensures
            meta_comps_view(r@) == self@.comps,
    {
        &self.components
    }

    pub fn strategy(&self) -> (r: OrganizeStrategy)
        ensures
            r == self@.strategy,
    {
        self.strategy
    }
}

} // verus!
