//! Planning under the metadata strategies (`audio`, `video`, `photos`,
//! `documents`): the same protection and rule precedence as every
//! strategy, then the file's own content metadata rendered through the
//! policy's `MetadataTemplate`. Missing or unreadable metadata is a skip
//! with its reason, never a guessed folder. The destination may span
//! several levels and is checked level by level as for `date`.
use vstd::prelude::*;
use crate::config::{by_priority, derefs, rules_by_priority, strategy_name, valid_dest, OrganizeStrategy, Rule};
use crate::domain::{Action, Entry, Plan};
use crate::meta_template::{field_name, field_name_exec, MetaField, MetaSegment, MetaTemplateView, MetadataTemplate};
use crate::metadata::opt_string_view;
use crate::path::{insert_all_sorted, join, path_join, strings_view};
use crate::planner::{
    action_view,
    actions_view,
    assemble,
    assemble_plan,
    categorical_skip_spec,
    createdir_actions,
    decision_to_action_levels,
    decision_view,
    entry_plan_matches,
    extends,
    fold_resolutions,
    lemma_asked_seq,
    lookup_asked,
    multi_level_observed,
    multi_level_resolution,
    project_root_reason,
    protected_decision,
    rule_decision,
    rule_decision_observed,
    rule_decision_spec,
    skip_all,
    skip_all_spec,
    Decision,
    DecisionCause,
    EntryPlan,
    FsSnapshot,
    MediaRead,
    Query,
    QueryView,
    ActionView,
};
use crate::text::{concat, concat3, dec, fmt_u64, str_eq};

verus! {

// ------------------------------------------------------------ observation

/// What the snapshot holds as `p`'s content metadata.
pub open spec fn media_in(ms: Seq<(String, MediaRead)>, p: Seq<char>) -> Option<MediaRead>
    decreases ms.len(),
{
    if ms.len() == 0 {
        None
    } else if ms[0].0@ == p {
        Some(ms[0].1)
    } else {
        media_in(ms.drop_first(), p)
    }
}

pub open spec fn media_observed(ms: Seq<(String, MediaRead)>, p: Seq<char>) -> bool {
    exists|i: int| 0 <= i < ms.len() && ms[i].0@ == p
}

fn lookup_media<'a>(snap: &'a FsSnapshot, p: &str, st: OrganizeStrategy, asked: &mut Vec<Query>) -> (r: Option<&'a MediaRead>)
    ensures
        match r {
            Some(m) => media_in(snap.media@, p@) == Some(*m),
            None => media_in(snap.media@, p@) is None,
        },
        extends(old(asked)@, final(asked)@),
        lookup_asked(old(asked)@, final(asked)@, media_observed(snap.media@, p@), QueryView::Media(p@, st)),
{
    let ghost ms = snap.media@;
    let mut i: usize = 0;
    assert(ms.subrange(0, ms.len() as int) =~= ms);
    while i < snap.media.len()
        invariant
            i <= ms.len(),
            ms == snap.media@,
            forall|j: int| 0 <= j < i ==> ms[j].0@ != p@,
            media_in(ms, p@) == media_in(ms.subrange(i as int, ms.len() as int), p@),
        decreases ms.len() - i,
    {
        let ghost rest = ms.subrange(i as int, ms.len() as int);
        assert(rest.drop_first() =~= ms.subrange(i + 1, ms.len() as int));
        assert(rest[0] == ms[i as int]);
        if str_eq(snap.media[i].0.as_str(), p) {
            return Some(&snap.media[i].1);
        }
        i += 1;
    }
    asked.push(Query::Media(p.to_owned(), st));
    None
}

// ----------------------------------------------------------------- values

pub open spec fn opt_dec32(o: Option<u32>) -> Option<Seq<char>> {
    match o {
        Some(n) => Some(dec(n as nat)),
        None => None,
    }
}

pub open spec fn opt_dec64(o: Option<u64>) -> Option<Seq<char>> {
    match o {
        Some(n) => Some(dec(n as nat)),
        None => None,
    }
}

/// The text a field renders to for successfully read metadata (`None`:
/// the file does not carry it, or the strategy does not offer it).
pub open spec fn meta_value(m: MediaRead, f: MetaField) -> Option<Seq<char>> {
    match m {
        MediaRead::Audio(Ok(a)) => match f {
            MetaField::Artist => opt_string_view(a.artist),
            MetaField::Album => opt_string_view(a.album),
            MetaField::AlbumArtist => opt_string_view(a.album_artist),
            MetaField::Genre => opt_string_view(a.genre),
            MetaField::Track => opt_string_view(a.track),
            MetaField::Title => opt_string_view(a.title),
            MetaField::Year => opt_string_view(a.year),
            _ => None,
        },
        MediaRead::Video(Ok(v)) => match f {
            MetaField::Width => Some(dec(v.width as nat)),
            MetaField::Height => Some(dec(v.height as nat)),
            MetaField::Resolution => Some(dec(v.width as nat) + "x"@ + dec(v.height as nat)),
            MetaField::Codec => opt_string_view(v.codec),
            MetaField::Year => opt_string_view(v.year),
            MetaField::Duration => opt_dec64(v.duration_seconds),
            MetaField::Fps => opt_dec32(v.fps),
            _ => None,
        },
        MediaRead::Photo(Ok(p)) => match f {
            MetaField::Camera => opt_string_view(p.camera),
            MetaField::Year => opt_string_view(p.year),
            MetaField::Month => opt_string_view(p.month),
            MetaField::Day => opt_string_view(p.day),
            _ => None,
        },
        MediaRead::Document(Ok(d)) => match f {
            MetaField::Author => opt_string_view(d.author),
            MetaField::Title => opt_string_view(d.title),
            MetaField::Year => opt_string_view(d.year),
            MetaField::Month => opt_string_view(d.month),
            MetaField::Day => opt_string_view(d.day),
            _ => None,
        },
        _ => None,
    }
}

fn clone_opt(o: &Option<String>) -> (r: Option<String>)
    ensures
        opt_string_view(r) == opt_string_view(*o),
{
    match o {
        Some(s) => Some(s.clone()),
        None => None,
    }
}

fn dec_opt64(o: Option<u64>) -> (r: Option<String>)
    ensures
        opt_string_view(r) == opt_dec64(o),
{
    match o {
        Some(n) => Some(fmt_u64(n, 0)),
        None => None,
    }
}

fn meta_value_exec(m: &MediaRead, f: MetaField) -> (r: Option<String>)
    ensures
        opt_string_view(r) == meta_value(*m, f),
{
    match m {
        MediaRead::Audio(Ok(a)) => match f {
            MetaField::Artist => clone_opt(&a.artist),
            MetaField::Album => clone_opt(&a.album),
            MetaField::AlbumArtist => clone_opt(&a.album_artist),
            MetaField::Genre => clone_opt(&a.genre),
            MetaField::Track => clone_opt(&a.track),
            MetaField::Title => clone_opt(&a.title),
            MetaField::Year => clone_opt(&a.year),
            _ => None,
        },
        MediaRead::Video(Ok(v)) => match f {
            MetaField::Width => Some(fmt_u64(v.width as u64, 0)),
            MetaField::Height => Some(fmt_u64(v.height as u64, 0)),
            MetaField::Resolution => {
                let w = fmt_u64(v.width as u64, 0);
                let h = fmt_u64(v.height as u64, 0);
                Some(concat3(w.as_str(), "x", h.as_str()))
            },
            MetaField::Codec => clone_opt(&v.codec),
            MetaField::Year => clone_opt(&v.year),
            MetaField::Duration => dec_opt64(v.duration_seconds),
            MetaField::Fps => match v.fps {
                Some(n) => Some(fmt_u64(n as u64, 0)),
                None => None,
            },
            _ => None,
        },
        MediaRead::Photo(Ok(p)) => match f {
            MetaField::Camera => clone_opt(&p.camera),
            MetaField::Year => clone_opt(&p.year),
            MetaField::Month => clone_opt(&p.month),
            MetaField::Day => clone_opt(&p.day),
            _ => None,
        },
        MediaRead::Document(Ok(d)) => match f {
            MetaField::Author => clone_opt(&d.author),
            MetaField::Title => clone_opt(&d.title),
            MetaField::Year => clone_opt(&d.year),
            MetaField::Month => clone_opt(&d.month),
            MetaField::Day => clone_opt(&d.day),
            _ => None,
        },
        _ => None,
    }
}


// -------------------------------------------------------------- rendering

pub open spec fn missing_msg(f: MetaField) -> Seq<char> {
    "missing {"@ + field_name(f) + "}"@
}

/// One component rendered from `m`, or the first field it lacks.
pub open spec fn render_meta_segs(segs: Seq<MetaSegment<Seq<char>>>, m: MediaRead) -> Result<Seq<char>, Seq<char>>
    decreases segs.len(),
{
    if segs.len() == 0 {
        Ok(Seq::empty())
    } else {
        match render_meta_segs(segs.drop_last(), m) {
            Err(e) => Err(e),
            Ok(p) => match segs.last() {
                MetaSegment::Literal(l) => Ok(p + l),
                MetaSegment::Field(f) => match meta_value(m, f) {
                    Some(v) => Ok(p + v),
                    None => Err(missing_msg(f)),
                },
            },
        }
    }
}

/// Every component rendered and joined, or the first field lacking.
pub open spec fn render_meta_comps(comps: Seq<Seq<MetaSegment<Seq<char>>>>, m: MediaRead) -> Result<Seq<char>, Seq<char>>
    decreases comps.len(),
{
    if comps.len() == 0 {
        Ok(Seq::empty())
    } else {
        match render_meta_comps(comps.drop_last(), m) {
            Err(e) => Err(e),
            Ok(p) => match render_meta_segs(comps.last(), m) {
                Err(e) => Err(e),
                Ok(c) => Ok(join(p, c)),
            },
        }
    }
}

/// The relative destination a template gives for `m`: every field it
/// names must be present, and the result must be a safe relative path.
pub open spec fn meta_render(t: MetaTemplateView, m: MediaRead) -> Result<Seq<char>, Seq<char>> {
    match render_meta_comps(t.comps, m) {
        Err(e) => Err(e),
        Ok(out) => if valid_dest(out) {
            Ok(out)
        } else {
            Err("rendered destination \""@ + out + "\" is not a safe relative path"@)
        },
    }
}

fn render_segs_exec(segs: &Vec<MetaSegment<String>>, m: &MediaRead) -> (r: Result<String, String>)
    ensures
        crate::config::str_res_view(r) == render_meta_segs(crate::meta_template::meta_segs_view(segs@), *m),
{
    let ghost sv = crate::meta_template::meta_segs_view(segs@);
    let mut out = String::new();
    let mut k: usize = 0;
    assert(sv.subrange(0, 0) =~= Seq::<MetaSegment<Seq<char>>>::empty());
    while k < segs.len()
        invariant
            k <= segs@.len(),
            sv == crate::meta_template::meta_segs_view(segs@),
            render_meta_segs(sv.subrange(0, k as int), *m) == Ok::<Seq<char>, Seq<char>>(out@),
        decreases segs@.len() - k,
    {
        assert(sv.subrange(0, k + 1).drop_last() =~= sv.subrange(0, k as int));
        assert(sv.subrange(0, k + 1).last() == crate::meta_template::meta_seg_view(segs@[k as int]));
        match &segs[k] {
            MetaSegment::Literal(l) => {
                out.append(l.as_str());
            },
            MetaSegment::Field(f) => match meta_value_exec(m, *f) {
                Some(v) => {
                    out.append(v.as_str());
                },
                None => {
                    proof {
                        lemma_render_segs_err(sv, k as int + 1, *m, missing_msg(*f));
                    }
                    return Err(concat3("missing {", field_name_exec(*f), "}"));
                },
            },
        }
        k += 1;
    }
    assert(sv.subrange(0, segs@.len() as int) =~= sv);
    Ok(out)
}

proof fn lemma_render_segs_err(sv: Seq<MetaSegment<Seq<char>>>, i: int, m: MediaRead, e: Seq<char>)
    requires
        0 <= i <= sv.len(),
        render_meta_segs(sv.subrange(0, i), m) == Err::<Seq<char>, Seq<char>>(e),
    ensures
        render_meta_segs(sv, m) == Err::<Seq<char>, Seq<char>>(e),
    decreases sv.len() - i,
{
    if i < sv.len() {
        assert(sv.subrange(0, i + 1).drop_last() =~= sv.subrange(0, i));
        lemma_render_segs_err(sv, i + 1, m, e);
    } else {
        assert(sv.subrange(0, i) =~= sv);
    }
}

proof fn lemma_render_comps_err(cv: Seq<Seq<MetaSegment<Seq<char>>>>, i: int, m: MediaRead, e: Seq<char>)
    requires
        0 <= i <= cv.len(),
        render_meta_comps(cv.subrange(0, i), m) == Err::<Seq<char>, Seq<char>>(e),
    ensures
        render_meta_comps(cv, m) == Err::<Seq<char>, Seq<char>>(e),
    decreases cv.len() - i,
{
    if i < cv.len() {
        assert(cv.subrange(0, i + 1).drop_last() =~= cv.subrange(0, i));
        lemma_render_comps_err(cv, i + 1, m, e);
    } else {
        assert(cv.subrange(0, i) =~= cv);
    }
}

impl MetadataTemplate {
    /// Renders this template from one file's successfully read metadata.
    pub fn render_from(&self, m: &MediaRead) -> (r: Result<String, String>)
        ensures
            crate::config::str_res_view(r) == meta_render(self@, *m),
    {
        let comps = self.components_ref();
        let ghost cv = crate::meta_template::meta_comps_view(comps@);
        let mut out = String::new();
        let mut i: usize = 0;
        assert(cv.subrange(0, 0) =~= Seq::<Seq<MetaSegment<Seq<char>>>>::empty());
        while i < comps.len()
            invariant
                i <= comps@.len(),
                cv == crate::meta_template::meta_comps_view(comps@),
                cv == self@.comps,
                render_meta_comps(cv.subrange(0, i as int), *m) == Ok::<Seq<char>, Seq<char>>(out@),
            decreases comps@.len() - i,
        {
            assert(cv.subrange(0, i + 1).drop_last() =~= cv.subrange(0, i as int));
            assert(cv.subrange(0, i + 1).last() == crate::meta_template::meta_segs_view(comps@[i as int]@));
            match render_segs_exec(&comps[i], m) {
                Err(e) => {
                    proof {
                        lemma_render_comps_err(cv, i as int + 1, *m, e@);
                    }
                    return Err(e);
                },
                Ok(c) => {
                    out = path_join(out.as_str(), c.as_str());
                },
            }
            i += 1;
        }
        assert(cv.subrange(0, comps@.len() as int) =~= cv);
        if !crate::config::validate_rule_destination(out.as_str()) {
            return Err(concat3("rendered destination \"", out.as_str(), "\" is not a safe relative path"));
        }
        Ok(out)
    }
}

// --------------------------------------------------------------- decision

/// The word a strategy's skip reasons use for its metadata.
pub open spec fn media_label(st: OrganizeStrategy) -> Seq<char> {
    match st {
        OrganizeStrategy::Audio => "audio"@,
        OrganizeStrategy::Video => "video"@,
        OrganizeStrategy::Photos => "photo"@,
        _ => "document"@,
    }
}

fn media_label_exec(st: OrganizeStrategy) -> (r: &'static str)
    ensures
        r@ == media_label(st),
{
    match st {
        OrganizeStrategy::Audio => "audio",
        OrganizeStrategy::Video => "video",
        OrganizeStrategy::Photos => "photo",
        _ => "document",
    }
}

/// Whether `m` is the kind of metadata strategy `st` reads.
pub open spec fn media_matches(st: OrganizeStrategy, m: MediaRead) -> bool {
    match m {
        MediaRead::Audio(_) => st == OrganizeStrategy::Audio,
        MediaRead::Video(_) => st == OrganizeStrategy::Video,
        MediaRead::Photo(_) => st == OrganizeStrategy::Photos,
        MediaRead::Document(_) => st == OrganizeStrategy::Documents,
    }
}

/// Why reading the metadata failed, if it did.
pub open spec fn media_error(m: MediaRead) -> Option<Seq<char>> {
    match m {
        MediaRead::Audio(Err(e)) => Some(e@),
        MediaRead::Video(Err(e)) => Some(e@),
        MediaRead::Photo(Err(e)) => Some(e@),
        MediaRead::Document(Err(e)) => Some(e@),
        _ => None,
    }
}

pub open spec fn or_text(o: Option<String>, d: Seq<char>) -> Seq<char> {
    match o {
        Some(s) => s@,
        None => d,
    }
}

/// The reason a metadata move carries.
pub open spec fn meta_reason(m: MediaRead) -> Seq<char> {
    match m {
        MediaRead::Audio(Ok(a)) => or_text(a.artist, "?"@) + "/"@ + or_text(a.album, "?"@),
        MediaRead::Video(Ok(v)) => dec(v.width as nat) + "x"@ + dec(v.height as nat),
        MediaRead::Photo(Ok(p)) => or_text(p.camera, "photo"@),
        MediaRead::Document(Ok(d)) => or_text(d.author, "document"@),
        _ => ""@,
    }
}

pub open spec fn unavailable(st: OrganizeStrategy, msg: Seq<char>) -> Decision<Seq<char>> {
    Decision::Skip(media_label(st) + " metadata unavailable: "@ + msg, DecisionCause::MetadataUnavailable(msg))
}

/// A metadata strategy's decision for `e`: protection first, then rules,
/// then the file's metadata (as the snapshot holds it) rendered through
/// the template; anything missing is a skip with its reason.
pub open spec fn meta_decision(
    snap: FsSnapshot,
    e: Entry,
    target: Seq<char>,
    rules: Seq<Rule>,
    t: MetaTemplateView,
) -> Decision<Seq<char>> {
    let st = t.strategy;
    match categorical_skip_spec(e) {
        Some(r) => Decision::Skip(r, DecisionCause::Protected(r)),
        None => match rule_decision_spec(snap, e.path@, target, rules) {
            Some(d) => d,
            None => match media_in(snap.media@, e.path@) {
                None => unavailable(st, "not observed"@),
                Some(m) => if !media_matches(st, m) {
                    unavailable(st, "not observed"@)
                } else {
                    match media_error(m) {
                        Some(msg) => unavailable(st, msg),
                        None => match meta_render(t, m) {
                            Ok(rel) => Decision::Move {
                                dest_dir: join(target, rel),
                                reason: meta_reason(m),
                                cause: DecisionCause::MetadataMatched,
                            },
                            Err(msg) => unavailable(st, msg),
                        },
                    }
                },
            },
        },
    }
}

/// How a metadata strategy resolves `e`: its decision, with every level of
/// the destination checked as for `date`.
pub open spec fn meta_resolution(
    snap: FsSnapshot,
    e: Entry,
    target: Seq<char>,
    rules: Seq<Rule>,
    t: MetaTemplateView,
) -> (ActionView, Seq<Seq<char>>) {
    multi_level_resolution(snap, e.path@, target, meta_decision(snap, e, target, rules, t))
}

/// Whether the snapshot holds every observation `meta_resolution`
/// consults for `e`.
pub open spec fn meta_observed(
    snap: FsSnapshot,
    e: Entry,
    target: Seq<char>,
    rules: Seq<Rule>,
    t: MetaTemplateView,
) -> bool {
    &&& categorical_skip_spec(e) is Some || (rule_decision_observed(snap, e.path@, target, rules) && (
    rule_decision_spec(snap, e.path@, target, rules) is Some || media_observed(snap.media@, e.path@)))
    &&& multi_level_observed(snap, e.path@, target, meta_decision(snap, e, target, rules, t))
}

fn or_text_exec(o: &Option<String>, d: &str) -> (r: String)
    ensures
        r@ == or_text(*o, d@),
{
    match o {
        Some(s) => s.clone(),
        None => d.to_owned(),
    }
}

fn meta_reason_exec(m: &MediaRead) -> (r: String)
    ensures
        r@ == meta_reason(*m),
{
    match m {
        MediaRead::Audio(Ok(a)) => {
            proof {
                reveal_strlit("?");
                reveal_strlit("/");
            }
            let x = or_text_exec(&a.artist, "?");
            let y = or_text_exec(&a.album, "?");
            let r = concat3(x.as_str(), "/", y.as_str());
            assert(x@ == or_text(a.artist, "?"@));
            assert(y@ == or_text(a.album, "?"@));
            assert(r@ == or_text(a.artist, "?"@) + "/"@ + or_text(a.album, "?"@));
            r
        },
        MediaRead::Video(Ok(v)) => {
            let w = fmt_u64(v.width as u64, 0);
            let h = fmt_u64(v.height as u64, 0);
            concat3(w.as_str(), "x", h.as_str())
        },
        MediaRead::Photo(Ok(p)) => or_text_exec(&p.camera, "photo"),
        MediaRead::Document(Ok(d)) => or_text_exec(&d.author, "document"),
        _ => {
            proof {
                reveal_strlit("");
            }
            "".to_owned()
        },
    }
}

fn unavailable_exec(st: OrganizeStrategy, msg: String) -> (r: Decision<String>)
    ensures
        decision_view(r) == unavailable(st, msg@),
{
    let reason = concat3(media_label_exec(st), " metadata unavailable: ", msg.as_str());
    Decision::Skip(reason, DecisionCause::MetadataUnavailable(msg))
}

fn media_error_exec(m: &MediaRead) -> (r: Option<String>)
    ensures
        opt_string_view(r) == media_error(*m),
{
    match m {
        MediaRead::Audio(Err(e)) => Some(e.clone()),
        MediaRead::Video(Err(e)) => Some(e.clone()),
        MediaRead::Photo(Err(e)) => Some(e.clone()),
        MediaRead::Document(Err(e)) => Some(e.clone()),
        _ => None,
    }
}

fn media_matches_exec(st: OrganizeStrategy, m: &MediaRead) -> (r: bool)
    ensures
        r == media_matches(st, *m),
{
    match m {
        MediaRead::Audio(_) => st == OrganizeStrategy::Audio,
        MediaRead::Video(_) => st == OrganizeStrategy::Video,
        MediaRead::Photo(_) => st == OrganizeStrategy::Photos,
        MediaRead::Document(_) => st == OrganizeStrategy::Documents,
    }
}

/// A metadata strategy's classification of one entry.
pub fn classify_for_metadata(
    snap: &FsSnapshot,
    entry: &Entry,
    target: &str,
    rules: &Vec<&Rule>,
    template: &MetadataTemplate,
    asked: &mut Vec<Query>,
) -> (r: Decision<String>)
    ensures
        decision_view(r) == meta_decision(*snap, *entry, target@, derefs(rules@), template@),
        extends(old(asked)@, final(asked)@),
        final(asked)@ == old(asked)@ <==> (categorical_skip_spec(*entry) is Some || (rule_decision_observed(
            *snap,
            entry.path@,
            target@,
            derefs(rules@),
        ) && (rule_decision_spec(*snap, entry.path@, target@, derefs(rules@)) is Some || media_observed(
            snap.media@,
            entry.path@,
        )))),
{
    if let Some(d) = protected_decision(entry) {
        return d;
    }
    let ghost a0 = asked@;
    if let Some(d) = rule_decision(snap, entry.path.as_str(), target, rules, asked) {
        return d;
    }
    let ghost a1 = asked@;
    let st = template.strategy();
    let found = lookup_media(snap, entry.path.as_str(), st, asked);
    proof {
        lemma_asked_seq(a0, a1, asked@);
        if !media_observed(snap.media@, entry.path@) {
            assert(asked@.len() != a1.len());
        }
    }
    proof {
        reveal_strlit("not observed");
    }
    match found {
        None => unavailable_exec(st, "not observed".to_owned()),
        Some(m) => {
            if !media_matches_exec(st, m) {
                return unavailable_exec(st, "not observed".to_owned());
            }
            match media_error_exec(m) {
                Some(msg) => unavailable_exec(st, msg),
                None => match template.render_from(m) {
                    Ok(rel) => Decision::Move {
                        dest_dir: path_join(target, rel.as_str()),
                        reason: meta_reason_exec(m),
                        cause: DecisionCause::MetadataMatched,
                    },
                    Err(msg) => unavailable_exec(st, msg),
                },
            }
        },
    }
}

/// Resolves one entry's final action under a metadata strategy.
pub fn resolve_metadata_action(
    snap: &FsSnapshot,
    entry: &Entry,
    target: &str,
    rules: &Vec<&Rule>,
    template: &MetadataTemplate,
    needed: &mut Vec<String>,
    asked: &mut Vec<Query>,
) -> (r: Action)
    ensures
        action_view(r) == meta_resolution(*snap, *entry, target@, derefs(rules@), template@).0,
        strings_view(final(needed)@) == insert_all_sorted(
            strings_view(old(needed)@),
            meta_resolution(*snap, *entry, target@, derefs(rules@), template@).1,
        ),
        extends(old(asked)@, final(asked)@),
        final(asked)@ == old(asked)@ <==> meta_observed(*snap, *entry, target@, derefs(rules@), template@),
{
    let ghost a0 = asked@;
    let d = classify_for_metadata(snap, entry, target, rules, template, asked);
    let ghost a1 = asked@;
    let r = decision_to_action_levels(snap, entry.path.as_str(), target, d, needed, asked);
    proof {
        lemma_asked_seq(a0, a1, asked@);
    }
    r
}

/// Plans a metadata strategy for exactly one entry of `containing_dir`
/// (the same per-entry logic the whole-directory plan uses).
pub fn plan_entry_metadata(
    entry: &Entry,
    containing_dir: &str,
    config_rules: &[Rule],
    template: &MetadataTemplate,
    snap: &FsSnapshot,
    asked: &mut Vec<Query>,
) -> (r: EntryPlan)
    ensures
        entry_plan_matches(
            r,
            meta_resolution(*snap, *entry, containing_dir@, by_priority(config_rules@), template@),
        ),
        extends(old(asked)@, final(asked)@),
        final(asked)@ == old(asked)@ <==> meta_observed(
            *snap,
            *entry,
            containing_dir@,
            by_priority(config_rules@),
            template@,
        ),
{
    let rules = rules_by_priority(config_rules);
    let mut needed: Vec<String> = Vec::new();
    assert(strings_view(needed@) =~= Seq::<Seq<char>>::empty());
    let action = resolve_metadata_action(snap, entry, containing_dir, &rules, template, &mut needed, asked);
    EntryPlan { create_dirs: createdir_actions(needed), action }
}

pub open spec fn meta_step(
    snap: FsSnapshot,
    target: Seq<char>,
    rules: Seq<Rule>,
    t: MetaTemplateView,
) -> spec_fn(Entry) -> (ActionView, Seq<Seq<char>>) {
    |e: Entry| meta_resolution(snap, e, target, rules, t)
}

/// A metadata strategy's plan of the scanned `entries` of `target`.
pub open spec fn plan_organize_metadata_spec(
    snap: FsSnapshot,
    target: Seq<char>,
    entries: Seq<Entry>,
    project_root: bool,
    rules: Seq<Rule>,
    t: MetaTemplateView,
) -> Seq<ActionView> {
    if project_root {
        skip_all_spec(entries, project_root_reason())
    } else {
        assemble(fold_resolutions(entries, meta_step(snap, target, by_priority(rules), t)))
    }
}

pub open spec fn plan_organize_metadata_observed(
    snap: FsSnapshot,
    target: Seq<char>,
    entries: Seq<Entry>,
    project_root: bool,
    rules: Seq<Rule>,
    t: MetaTemplateView,
) -> bool {
    project_root || forall|k: int|
        0 <= k < entries.len() ==> meta_observed(snap, #[trigger] entries[k], target, by_priority(rules), t)
}

/// Organizes the scanned `entries` of `path` under a metadata strategy
/// (the template's own). It asks for each observation it needed and the
/// snapshot lacked, and asks nothing exactly when the snapshot held them
/// all.
pub fn plan_organize_metadata(
    path: &str,
    entries: &[Entry],
    project_root: bool,
    config_rules: &[Rule],
    template: &MetadataTemplate,
    snap: &FsSnapshot,
    asked: &mut Vec<Query>,
) -> (r: Plan)
    ensures
        actions_view(r.actions@) == plan_organize_metadata_spec(
            *snap,
            path@,
            entries@,
            project_root,
            config_rules@,
            template@,
        ),
        extends(old(asked)@, final(asked)@),
        final(asked)@ == old(asked)@ <==> plan_organize_metadata_observed(
            *snap,
            path@,
            entries@,
            project_root,
            config_rules@,
            template@,
        ),
{
    if project_root {
        proof {
            reveal_strlit("target is a software project root");
        }
        return skip_all(entries, "target is a software project root");
    }
    let rules = rules_by_priority(config_rules);
    let ghost step = meta_step(*snap, path@, by_priority(config_rules@), template@);
    let mut needed: Vec<String> = Vec::new();
    let mut acts: Vec<Action> = Vec::new();
    let mut i: usize = 0;
    assert(strings_view(needed@) =~= Seq::<Seq<char>>::empty());
    assert(actions_view(acts@) =~= Seq::<ActionView>::empty());
    while i < entries.len()
        invariant
            i <= entries@.len(),
            derefs(rules@) == by_priority(config_rules@),
            step == meta_step(*snap, path@, by_priority(config_rules@), template@),
            (actions_view(acts@), strings_view(needed@)) == fold_resolutions(
                entries@.subrange(0, i as int),
                step,
            ),
            extends(old(asked)@, asked@),
            !project_root,
            asked@ == old(asked)@ <==> forall|k: int|
                0 <= k < i ==> meta_observed(
                    *snap,
                    #[trigger] entries@[k],
                    path@,
                    by_priority(config_rules@),
                    template@,
                ),
        decreases entries@.len() - i,
    {
        assert(entries@.subrange(0, i + 1).drop_last() =~= entries@.subrange(0, i as int));
        let ghost before = acts@;
        let ghost a0 = asked@;
        let a = resolve_metadata_action(snap, &entries[i], path, &rules, template, &mut needed, asked);
        proof {
            lemma_asked_seq(old(asked)@, a0, asked@);
            if asked@ == old(asked)@ {
                assert forall|k: int| 0 <= k < i + 1 implies meta_observed(
                    *snap,
                    #[trigger] entries@[k],
                    path@,
                    by_priority(config_rules@),
                    template@,
                ) by {
                    if k == i {
                    }
                }
            }
        }
        acts.push(a);
        assert(actions_view(acts@) =~= actions_view(before).push(action_view(a)));
        i += 1;
    }
    assert(entries@.subrange(0, entries@.len() as int) =~= entries@);
    assemble_plan(needed, acts)
}

/// Plans `strategy = "audio"` (by audio tags) for exactly one entry of
/// `containing_dir`.
pub fn plan_entry_audio(
    entry: &Entry,
    containing_dir: &str,
    config_rules: &[Rule],
    template: &MetadataTemplate,
    snap: &FsSnapshot,
    asked: &mut Vec<Query>,
) -> (r: EntryPlan)
    ensures
        entry_plan_matches(
            r,
            meta_resolution(*snap, *entry, containing_dir@, by_priority(config_rules@), template@),
        ),
        extends(old(asked)@, final(asked)@),
        final(asked)@ == old(asked)@ <==> meta_observed(
            *snap,
            *entry,
            containing_dir@,
            by_priority(config_rules@),
            template@,
        ),
{
    plan_entry_metadata(entry, containing_dir, config_rules, template, snap, asked)
}

/// Organizes the scanned `entries` of `path` with `strategy = "audio"` (a
/// single directory: this strategy never recurses).
pub fn plan_organize_audio(
    path: &str,
    entries: &[Entry],
    project_root: bool,
    config_rules: &[Rule],
    template: &MetadataTemplate,
    snap: &FsSnapshot,
    asked: &mut Vec<Query>,
) -> (r: Plan)
    ensures
        actions_view(r.actions@) == plan_organize_metadata_spec(
            *snap,
            path@,
            entries@,
            project_root,
            config_rules@,
            template@,
        ),
        extends(old(asked)@, final(asked)@),
        final(asked)@ == old(asked)@ <==> plan_organize_metadata_observed(
            *snap,
            path@,
            entries@,
            project_root,
            config_rules@,
            template@,
        ),
{
    plan_organize_metadata(path, entries, project_root, config_rules, template, snap, asked)
}

/// Plans `strategy = "video"` (by video container fields) for exactly one entry of
/// `containing_dir`.
pub fn plan_entry_video(
    entry: &Entry,
    containing_dir: &str,
    config_rules: &[Rule],
    template: &MetadataTemplate,
    snap: &FsSnapshot,
    asked: &mut Vec<Query>,
) -> (r: EntryPlan)
    ensures
        entry_plan_matches(
            r,
            meta_resolution(*snap, *entry, containing_dir@, by_priority(config_rules@), template@),
        ),
        extends(old(asked)@, final(asked)@),
        final(asked)@ == old(asked)@ <==> meta_observed(
            *snap,
            *entry,
            containing_dir@,
            by_priority(config_rules@),
            template@,
        ),
{
    plan_entry_metadata(entry, containing_dir, config_rules, template, snap, asked)
}

/// Organizes the scanned `entries` of `path` with `strategy = "video"` (a
/// single directory: this strategy never recurses).
pub fn plan_organize_video(
    path: &str,
    entries: &[Entry],
    project_root: bool,
    config_rules: &[Rule],
    template: &MetadataTemplate,
    snap: &FsSnapshot,
    asked: &mut Vec<Query>,
) -> (r: Plan)
    ensures
        actions_view(r.actions@) == plan_organize_metadata_spec(
            *snap,
            path@,
            entries@,
            project_root,
            config_rules@,
            template@,
        ),
        extends(old(asked)@, final(asked)@),
        final(asked)@ == old(asked)@ <==> plan_organize_metadata_observed(
            *snap,
            path@,
            entries@,
            project_root,
            config_rules@,
            template@,
        ),
{
    plan_organize_metadata(path, entries, project_root, config_rules, template, snap, asked)
}

/// Plans `strategy = "photos"` (by photo EXIF fields) for exactly one entry of
/// `containing_dir`.
pub fn plan_entry_photos(
    entry: &Entry,
    containing_dir: &str,
    config_rules: &[Rule],
    template: &MetadataTemplate,
    snap: &FsSnapshot,
    asked: &mut Vec<Query>,
) -> (r: EntryPlan)
    ensures
        entry_plan_matches(
            r,
            meta_resolution(*snap, *entry, containing_dir@, by_priority(config_rules@), template@),
        ),
        extends(old(asked)@, final(asked)@),
        final(asked)@ == old(asked)@ <==> meta_observed(
            *snap,
            *entry,
            containing_dir@,
            by_priority(config_rules@),
            template@,
        ),
{
    plan_entry_metadata(entry, containing_dir, config_rules, template, snap, asked)
}

/// Organizes the scanned `entries` of `path` with `strategy = "photos"` (a
/// single directory: this strategy never recurses).
pub fn plan_organize_photos(
    path: &str,
    entries: &[Entry],
    project_root: bool,
    config_rules: &[Rule],
    template: &MetadataTemplate,
    snap: &FsSnapshot,
    asked: &mut Vec<Query>,
) -> (r: Plan)
    ensures
        actions_view(r.actions@) == plan_organize_metadata_spec(
            *snap,
            path@,
            entries@,
            project_root,
            config_rules@,
            template@,
        ),
        extends(old(asked)@, final(asked)@),
        final(asked)@ == old(asked)@ <==> plan_organize_metadata_observed(
            *snap,
            path@,
            entries@,
            project_root,
            config_rules@,
            template@,
        ),
{
    plan_organize_metadata(path, entries, project_root, config_rules, template, snap, asked)
}

/// Plans `strategy = "documents"` (by document properties) for exactly one entry of
/// `containing_dir`.
pub fn plan_entry_documents(
    entry: &Entry,
    containing_dir: &str,
    config_rules: &[Rule],
    template: &MetadataTemplate,
    snap: &FsSnapshot,
    asked: &mut Vec<Query>,
) -> (r: EntryPlan)
    ensures
        entry_plan_matches(
            r,
            meta_resolution(*snap, *entry, containing_dir@, by_priority(config_rules@), template@),
        ),
        extends(old(asked)@, final(asked)@),
        final(asked)@ == old(asked)@ <==> meta_observed(
            *snap,
            *entry,
            containing_dir@,
            by_priority(config_rules@),
            template@,
        ),
{
    plan_entry_metadata(entry, containing_dir, config_rules, template, snap, asked)
}

/// Organizes the scanned `entries` of `path` with `strategy = "documents"` (a
/// single directory: this strategy never recurses).
pub fn plan_organize_documents(
    path: &str,
    entries: &[Entry],
    project_root: bool,
    config_rules: &[Rule],
    template: &MetadataTemplate,
    snap: &FsSnapshot,
    asked: &mut Vec<Query>,
) -> (r: Plan)
    ensures
        actions_view(r.actions@) == plan_organize_metadata_spec(
            *snap,
            path@,
            entries@,
            project_root,
            config_rules@,
            template@,
        ),
        extends(old(asked)@, final(asked)@),
        final(asked)@ == old(asked)@ <==> plan_organize_metadata_observed(
            *snap,
            path@,
            entries@,
            project_root,
            config_rules@,
            template@,
        ),
{
    plan_organize_metadata(path, entries, project_root, config_rules, template, snap, asked)
}

} // verus!
