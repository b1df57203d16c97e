use sift::classifier::CategoryDB;
use sift::config::{EffectivePolicy, Rule, UnknownPolicy};
use sift::explain::explain_path;
use sift::render::explain_lines;
use sift::domain::{Entry, Op, Plan};
use sift::watch::engine::{process_candidate, CandidateStep};
use sift::planner::{
    plan_with_strategy_recursive, renamed_candidate,
    glob_match, is_builtin_junk, plan_clean, plan_organize, DestinationFileStatus, FsSnapshot,
    PathKind, Query, MediaRead,
};
use sift::config::OrganizeStrategy;
use sift::meta_template::MetadataTemplate;
use sift::meta_plan::plan_organize_audio;
use sift::metadata::AudioMetadata;

/// A tiny in-memory filesystem: `(path, is_dir, content)`.
struct Fake {
    nodes: Vec<(String, bool, Vec<u8>)>,
}

impl Fake {
    fn node(&self, p: &str) -> Option<&(String, bool, Vec<u8>)> {
        self.nodes.iter().find(|n| n.0 == p)
    }

    fn entry(&self, p: &str) -> Option<Entry> {
        let n = self.node(p)?;
        let name = p.rsplit('/').next().unwrap();
        let project = n.1 && self.node(&format!("{}/Cargo.toml", p)).is_some();
        Some(Entry {
            path: p.to_string(),
            is_dir: n.1,
            is_symlink: false,
            hidden: name.starts_with('.'),
            size: if n.1 { None } else { Some(n.2.len() as u64) },
            mtime: Some(0),
            project_root: project,
            protected: project,
            classified_as: None,
        })
    }

    fn answer(&self, q: Query, snap: &mut FsSnapshot) {
        match q {
            Query::Kind(p) => {
                let k = match self.node(&p) {
                    Some(n) if n.1 => PathKind::Dir,
                    Some(_) => PathKind::File,
                    None => PathKind::Absent,
                };
                snap.kinds.push((p, k));
            }
            Query::DestFile(src, dest) => {
                let st = match self.node(&dest) {
                    None => DestinationFileStatus::Clear,
                    Some(d) if d.1 => DestinationFileStatus::Blocked,
                    Some(d) => {
                        let same = self.node(&src).map(|s| s.2 == d.2).unwrap_or(false);
                        if same {
                            DestinationFileStatus::IdenticalDuplicate
                        } else {
                            let (stem, ext) = match dest.rfind('.') {
                                Some(i) => (dest[..i].to_string(), dest[i..].to_string()),
                                None => (dest.clone(), String::new()),
                            };
                            let mut n = 1;
                            loop {
                                let alt = format!("{} ({}){}", stem, n, ext);
                                if self.node(&alt).is_none() {
                                    break DestinationFileStatus::Renamed(alt);
                                }
                                n += 1;
                            }
                        }
                    }
                };
                snap.dest_files.push((src, dest, st));
            }
            Query::Mtime(p) => snap.mtimes.push((p, Ok(0))),
            Query::List(d) => {
                let prefix = format!("{}/", d);
                let mut es: Vec<Entry> = self
                    .nodes
                    .iter()
                    .filter(|n| n.0.starts_with(&prefix) && !n.0[prefix.len()..].contains('/'))
                    .filter_map(|n| self.entry(&n.0))
                    .collect();
                es.sort_by(|a, b| a.path.cmp(&b.path));
                snap.listings.push((d, es));
            }
            Query::LocalPolicy(d) => snap.local_policies.push((d, None)),
            Query::Describe(p) => {
                let e = self.entry(&p);
                snap.described.push((p, e));
            }
            Query::Media(p, _) => snap.media.push((p, MediaRead::Audio(Err("no tags".into())))),
        }
    }
}

fn empty() -> FsSnapshot {
    FsSnapshot {
        kinds: Vec::new(),
        dest_files: Vec::new(),
        mtimes: Vec::new(),
        listings: Vec::new(),
        local_policies: Vec::new(),
        described: Vec::new(),
        media: Vec::new(),
    }
}

fn organize(fs: &Fake, root: &str, rules: &[Rule]) -> Plan {
    let db = CategoryDB::new();
    let mut snap = empty();
    Fake::answer(fs, Query::List(root.to_string()), &mut snap);
    let entries = snap.listings[0].1.clone();
    loop {
        let mut asked = Vec::new();
        let plan = plan_organize(root, &entries, false, rules, &db, UnknownPolicy::Other, &snap, &mut asked);
        if asked.is_empty() {
            return plan;
        }
        for q in asked {
            fs.answer(q, &mut snap);
        }
    }
}

fn sample() -> Fake {
    Fake {
        nodes: vec![
            ("/t".into(), true, vec![]),
            ("/t/a.pdf".into(), false, b"new".to_vec()),
            ("/t/b.jpg".into(), false, b"img".to_vec()),
            ("/t/.hidden.jpg".into(), false, vec![]),
            ("/t/app".into(), true, vec![]),
            ("/t/app/Cargo.toml".into(), false, vec![]),
            ("/t/Documents".into(), true, vec![]),
            ("/t/Documents/a.pdf".into(), false, b"old".to_vec()),
            ("/t/song.mp3".into(), false, b"x".to_vec()),
            ("/t/Audio".into(), true, vec![]),
            ("/t/Audio/song.mp3".into(), false, b"x".to_vec()),
            ("/t/movie.torrent".into(), false, vec![]),
        ],
    }
}

fn find<'a>(p: &'a Plan, src: &str) -> &'a sift::domain::Action {
    p.actions.iter().find(|a| a.src == src).unwrap()
}

#[test]
fn organize_never_overwrites_and_skips_protected_entries() {
    let plan = organize(&sample(), "/t", &[]);
    let a = find(&plan, "/t/a.pdf");
    assert_eq!(a.op, Op::Move);
    assert_eq!(a.dst.as_deref(), Some("/t/Documents/a (1).pdf"));
    assert!(a.reason.as_deref().unwrap().ends_with(sift::planner::RENAMED_COLLISION_REASON_SUFFIX));
    let s = find(&plan, "/t/song.mp3");
    assert_eq!(s.op, Op::Trash);
    assert_eq!(s.dst.as_deref(), Some("/t/Audio/song.mp3"));
    assert_eq!(find(&plan, "/t/.hidden.jpg").op, Op::Skip);
    assert_eq!(find(&plan, "/t/.hidden.jpg").reason.as_deref(), Some("hidden file"));
    assert_eq!(find(&plan, "/t/app").reason.as_deref(), Some("software project"));
    // The missing Images directory is created before anything moves into it.
    assert_eq!(plan.actions[0].op, Op::CreateDir);
    assert_eq!(plan.actions[0].src, "/t/Images");
    let b = find(&plan, "/t/b.jpg");
    assert_eq!(b.dst.as_deref(), Some("/t/Images/b.jpg"));
    // No move ever targets an existing path.
    for act in &plan.actions {
        if act.op == Op::Move {
            assert!(sample().node(act.dst.as_deref().unwrap()).is_none());
        }
    }
}

#[test]
fn a_matching_rule_wins_over_the_strategy() {
    let rule = Rule {
        name: "torrents".into(),
        pattern: "*.torrent".into(),
        action: "Move".into(),
        destination: Some("Torrents".into()),
        priority: 100,
        enabled: true,
        description: None,
    };
    let plan = organize(&sample(), "/t", &[rule]);
    let t = find(&plan, "/t/movie.torrent");
    assert_eq!(t.op, Op::Move);
    assert_eq!(t.dst.as_deref(), Some("/t/Torrents/movie.torrent"));
    assert!(plan.actions.iter().any(|a| a.op == Op::CreateDir && a.src == "/t/Torrents"));
}

#[test]
fn clean_trashes_only_junk() {
    let fs = Fake {
        nodes: vec![
            ("/c".into(), true, vec![]),
            ("/c/x.tmp".into(), false, vec![]),
            ("/c/keep.txt".into(), false, vec![]),
            ("/c/.swp".into(), false, vec![]),
        ],
    };
    let mut snap = empty();
    fs.answer(Query::List("/c".into()), &mut snap);
    let entries = snap.listings[0].1.clone();
    let db = CategoryDB::new();
    let plan = plan_clean("/c", &entries, false, &[], &db);
    assert_eq!(find(&plan, "/c/x.tmp").op, Op::Trash);
    assert_eq!(find(&plan, "/c/keep.txt").op, Op::Skip);
    assert_eq!(find(&plan, "/c/.swp").op, Op::Skip);
    let all = plan_clean("/c", &entries, true, &[], &db);
    assert!(all.actions.iter().all(|a| a.op == Op::Skip));
}

#[test]
fn globs_and_junk() {
    assert!(glob_match("*.torrent", "movie.torrent"));
    assert!(!glob_match("*.torrent", "movie.mkv"));
    assert!(glob_match("notes.txt", "/x/notes.txt"));
    assert!(!glob_match("notes.txt", "/x/notes.txt.bak"));
    assert!(is_builtin_junk("/x/a.swp"));
    assert!(!is_builtin_junk("/x/a.txt"));
    assert!(is_builtin_junk("/x/X.TMP"));
    assert!(is_builtin_junk("/x/b.Swo"));
}

#[test]
fn explain_reports_the_same_decision_as_organize() {
    let fs = sample();
    let policy = EffectivePolicy::default();
    let db = CategoryDB::new();
    let entry = fs.entry("/t/b.jpg");
    let mut snap = empty();
    let exp = loop {
        let mut asked = Vec::new();
        let r = explain_path("/t/b.jpg", "/t", &policy, entry.as_ref(), &db, &snap, &mut asked);
        if asked.is_empty() {
            break r.unwrap();
        }
        for q in asked {
            fs.answer(q, &mut snap);
        }
    };
    assert_eq!(exp.op, Op::Move);
    assert_eq!(exp.destination.as_deref(), Some("/t/Images/b.jpg"));
    let lines = explain_lines(&exp, false);
    assert_eq!(lines[0], "Sift explain");
    assert_eq!(lines[1], "b.jpg");
    assert_eq!(lines[4], "  built-in defaults");
    assert!(lines.contains(&"  .jpg → Image".to_string()));
    assert!(lines.contains(&"  MOVE".to_string()));
    assert_eq!(lines.last().unwrap(), "No changes were made.");
    let missing = explain_path("/t/none.txt", "/t", &policy, None, &db, &snap, &mut Vec::new());
    assert_eq!(missing.unwrap_err(), "/t/none.txt: no such file");
}

#[test]
fn renamed_candidates_keep_the_extension() {
    assert_eq!(renamed_candidate("/t/Images/photo.jpg", 1), Some("/t/Images/photo (1).jpg".to_string()));
    assert_eq!(renamed_candidate("/t/Docs/a.tar.gz", 12), Some("/t/Docs/a.tar (12).gz".to_string()));
    assert_eq!(renamed_candidate("/t/Other/README", 2), Some("/t/Other/README (2)".to_string()));
    assert_eq!(renamed_candidate("/t/Other/.env", 3), Some("/t/Other/.env (3)".to_string()));
    assert_eq!(renamed_candidate("/", 1), None);
}

#[test]
fn recursive_organize_keeps_each_directory_local() {
    let fs = Fake {
        nodes: vec![
            ("/t".into(), true, vec![]),
            ("/t/invoice.pdf".into(), false, b"i".to_vec()),
            ("/t/Client A".into(), true, vec![]),
            ("/t/Client A/proposal.pdf".into(), false, b"p".to_vec()),
            ("/t/Client A/logo.png".into(), false, b"l".to_vec()),
            ("/t/Documents".into(), true, vec![]),
            ("/t/Documents/old.pdf".into(), false, b"o".to_vec()),
        ],
    };
    let policy = EffectivePolicy::default();
    let db = CategoryDB::new();
    let mut snap = empty();
    let rp = loop {
        let mut asked = Vec::new();
        let r = plan_with_strategy_recursive("/t", false, &policy, &db, &snap, &mut asked);
        if asked.is_empty() {
            break r;
        }
        for q in asked {
            fs.answer(q, &mut snap);
        }
    };
    let p = &rp.plan;
    assert_eq!(find(p, "/t/invoice.pdf").dst.as_deref(), Some("/t/Documents/invoice.pdf"));
    assert_eq!(find(p, "/t/Client A/proposal.pdf").dst.as_deref(), Some("/t/Client A/Documents/proposal.pdf"));
    assert_eq!(find(p, "/t/Client A/logo.png").dst.as_deref(), Some("/t/Client A/Images/logo.png"));
    let docs = find(p, "/t/Documents");
    assert_eq!(docs.op, Op::Skip);
    assert_eq!(docs.reason.as_deref(), Some("category directory"));
    assert!(p.actions.iter().all(|a| a.src != "/t/Documents/old.pdf"));
    assert_eq!(rp.dirs_scanned, 2);
}

fn candidate(fs: &Fake, root: &str, path: &str) -> CandidateStep {
    let policy = EffectivePolicy::default();
    let db = CategoryDB::new();
    let mut snap = empty();
    loop {
        let mut asked = Vec::new();
        let step = process_candidate(root, &policy, &policy, &db, path, &snap, &mut asked);
        if asked.is_empty() {
            return step;
        }
        for q in asked {
            fs.answer(q, &mut snap);
        }
    }
}

fn planned(step: CandidateStep) -> Plan {
    match step {
        CandidateStep::Execute(p) => p,
        CandidateStep::Done(o) => panic!("nothing to execute: {:?}", o.skip_reason),
    }
}

#[test]
fn organizes_a_recognized_file() {
    let fs = Fake { nodes: vec![("/r".into(), true, vec![]), ("/r/photo.jpg".into(), false, b"x".to_vec())] };
    let plan = planned(candidate(&fs, "/r", "/r/photo.jpg"));
    let mv = plan.actions.last().unwrap();
    assert_eq!(mv.op, Op::Move);
    assert_eq!(mv.dst.as_deref(), Some("/r/Images/photo.jpg"));
    assert_eq!(plan.actions[0].op, Op::CreateDir);
    assert_eq!(plan.actions[0].src, "/r/Images");
}

#[test]
fn skips_a_protected_candidate() {
    let fs = Fake { nodes: vec![("/r".into(), true, vec![]), ("/r/.hidden.jpg".into(), false, b"x".to_vec())] };
    match candidate(&fs, "/r", "/r/.hidden.jpg") {
        CandidateStep::Done(o) => {
            assert!(!o.organized);
            assert_eq!(o.skip_reason.as_deref(), Some("candidate is hidden"));
        }
        CandidateStep::Execute(_) => panic!("a hidden candidate must not be organized"),
    }
}

#[test]
fn revalidates_ancestor_that_became_a_project_root() {
    let fs = Fake {
        nodes: vec![
            ("/r".into(), true, vec![]),
            ("/r/app".into(), true, vec![]),
            ("/r/app/index.js".into(), false, b"x".to_vec()),
            ("/r/app/Cargo.toml".into(), false, vec![]),
        ],
    };
    match candidate(&fs, "/r", "/r/app/index.js") {
        CandidateStep::Done(o) => {
            assert!(!o.organized);
            assert!(o.skip_reason.is_some());
        }
        CandidateStep::Execute(_) => panic!("a file inside a project must not be organized"),
    }
}

#[test]
fn collision_with_different_content_is_renamed_never_overwritten() {
    let fs = Fake {
        nodes: vec![
            ("/r".into(), true, vec![]),
            ("/r/Images".into(), true, vec![]),
            ("/r/Images/photo.jpg".into(), false, b"existing".to_vec()),
            ("/r/photo.jpg".into(), false, b"new".to_vec()),
        ],
    };
    let plan = planned(candidate(&fs, "/r", "/r/photo.jpg"));
    let mv = plan.actions.last().unwrap();
    assert_eq!(mv.op, Op::Move);
    assert_eq!(mv.dst.as_deref(), Some("/r/Images/photo (1).jpg"));
}

#[test]
fn collision_with_identical_content_trashes_the_duplicate() {
    let fs = Fake {
        nodes: vec![
            ("/r".into(), true, vec![]),
            ("/r/Images".into(), true, vec![]),
            ("/r/Images/photo.jpg".into(), false, b"same".to_vec()),
            ("/r/photo.jpg".into(), false, b"same".to_vec()),
        ],
    };
    let plan = planned(candidate(&fs, "/r", "/r/photo.jpg"));
    let t = plan.actions.last().unwrap();
    assert_eq!(t.op, Op::Trash);
    assert_eq!(t.dst.as_deref(), Some("/r/Images/photo.jpg"));
}

#[test]
fn renamed_move_takes_the_least_free_number() {
    let taken = vec!["/d/Images/photo (1).jpg".to_string(), "/d/Images/photo (2).jpg".to_string(), "/d/Images/photo (4).jpg".to_string()];
    assert_eq!(sift::planner::least_free_candidate("/d/Images/photo.jpg", &taken).as_deref(), Some("/d/Images/photo (3).jpg"));
    assert_eq!(sift::planner::least_free_candidate("/d/Images/photo.jpg", &Vec::new()).as_deref(), Some("/d/Images/photo (1).jpg"));
}


fn tags(artist: Option<&str>, album: Option<&str>) -> AudioMetadata {
    AudioMetadata {
        title: None,
        artist: artist.map(|s| s.to_string()),
        album: album.map(|s| s.to_string()),
        album_artist: None,
        genre: None,
        year: None,
        track: None,
    }
}

#[test]
fn audio_strategy_files_by_tags_and_skips_missing_ones() {
    let fs = Fake {
        nodes: vec![
            ("/m".into(), true, vec![]),
            ("/m/a.mp3".into(), false, b"x".to_vec()),
            ("/m/b.mp3".into(), false, b"y".to_vec()),
            ("/m/c.flac".into(), false, b"z".to_vec()),
        ],
    };
    let t = MetadataTemplate::parse("{artist}/{album}", OrganizeStrategy::Audio).unwrap();
    let mut snap = empty();
    snap.media.push(("/m/a.mp3".into(), MediaRead::Audio(Ok(tags(Some("Daft Punk"), Some("Discovery"))))));
    snap.media.push(("/m/b.mp3".into(), MediaRead::Audio(Ok(tags(None, Some("Discovery"))))));
    fs.answer(Query::List("/m".to_string()), &mut snap);
    let entries = snap.listings[0].1.clone();
    let plan = loop {
        let mut asked = Vec::new();
        let plan = plan_organize_audio("/m", &entries, false, &[], &t, &snap, &mut asked);
        if asked.is_empty() {
            break plan;
        }
        for q in asked {
            fs.answer(q, &mut snap);
        }
    };
    let creates: Vec<&str> = plan.actions.iter().filter(|a| a.op == Op::CreateDir).map(|a| a.src.as_str()).collect();
    assert_eq!(creates, vec!["/m/Daft Punk", "/m/Daft Punk/Discovery"]);
    let a = plan.actions.iter().find(|a| a.src == "/m/a.mp3").unwrap();
    assert_eq!(a.op, Op::Move);
    assert_eq!(a.dst.as_deref(), Some("/m/Daft Punk/Discovery/a.mp3"));
    assert_eq!(a.reason.as_deref(), Some("Daft Punk/Discovery"));
    let b = plan.actions.iter().find(|a| a.src == "/m/b.mp3").unwrap();
    assert_eq!(b.op, Op::Skip);
    assert_eq!(b.reason.as_deref(), Some("audio metadata unavailable: missing {artist}"));
    let c = plan.actions.iter().find(|a| a.src == "/m/c.flac").unwrap();
    assert_eq!(c.reason.as_deref(), Some("audio metadata unavailable: no tags"));
}

#[test]
fn metadata_templates_accept_only_their_strategys_fields() {
    assert!(MetadataTemplate::parse("{camera}/{year}/{month}", OrganizeStrategy::Photos).is_ok());
    let e = MetadataTemplate::parse("{camera}", OrganizeStrategy::Audio).unwrap_err();
    assert_eq!(
        e,
        "organize.template: unknown placeholder \"{camera}\" (supported: artist, album, album_artist, genre, track, title, year)"
    );
    assert!(MetadataTemplate::parse("{author}/{year}", OrganizeStrategy::Documents).is_ok());
    assert!(MetadataTemplate::parse("{resolution}/{year}", OrganizeStrategy::Video).is_ok());
    assert!(MetadataTemplate::parse("../{artist}", OrganizeStrategy::Audio).is_err());
}

#[test]
fn clean_trashes_junk_extensions_in_any_case() {
    let fs = Fake {
        nodes: vec![("/c".into(), true, vec![]), ("/c/X.TMP".into(), false, vec![]), ("/c/y.Swp".into(), false, vec![])],
    };
    let mut snap = empty();
    fs.answer(Query::List("/c".into()), &mut snap);
    let entries = snap.listings[0].1.clone();
    let db = CategoryDB::new();
    let plan = plan_clean("/c", &entries, false, &[], &db);
    assert_eq!(find(&plan, "/c/X.TMP").op, Op::Trash);
    assert_eq!(find(&plan, "/c/y.Swp").op, Op::Trash);
}

#[test]
fn project_roots_are_detected_by_their_markers() {
    let mut snap = empty();
    let mut asked = Vec::new();
    assert!(!sift::scanner::is_project_root(&snap, "/p", &mut asked));
    assert_eq!(asked.len(), 5);
    snap.kinds.push(("/p/.git".into(), PathKind::Absent));
    snap.kinds.push(("/p/Cargo.toml".into(), PathKind::File));
    let mut asked = Vec::new();
    assert!(sift::scanner::is_project_root(&snap, "/p", &mut asked));
    assert!(asked.is_empty());
    let mut snap2 = empty();
    for m in [".git", "Cargo.toml", "package.json", "pyproject.toml", "pubspec.yaml"] {
        snap2.kinds.push((format!("/q/{m}"), PathKind::Absent));
    }
    let mut asked = Vec::new();
    assert!(!sift::scanner::is_project_root(&snap2, "/q", &mut asked));
    assert!(asked.is_empty());
}

#[test]
fn entries_are_described_from_their_metadata() {
    let d = sift::scanner::entry_from_metadata("/p/.cfg", true, false, 4096, Some(7), true);
    assert!(d.hidden && d.project_root && d.protected && d.size.is_none());
    let f = sift::scanner::entry_from_metadata("/p/a.txt", false, false, 12, None, true);
    assert!(!f.hidden && !f.project_root && f.size == Some(12) && f.mtime.is_none());
    let l = sift::scanner::entry_from_metadata("/p/link", false, true, 9, Some(1), false);
    assert!(l.size.is_none() && l.is_symlink);
}
