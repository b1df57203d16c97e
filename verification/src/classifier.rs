//! Extension-based classification of ordinary files (never by content).
use vstd::prelude::*;
use crate::domain::{Category, Entry};
use crate::path::{extension, path_extension};
use crate::text::{lower_seq, str_eq, to_lower};

verus! {

pub open spec fn exts_image() -> Seq<Seq<char>> {
    seq![
        "jpg"@, "jpeg"@, "png"@, "gif"@, "webp"@, "svg"@, "bmp"@, "tiff"@, "tif"@, "heic"@,
        "heif"@, "avif"@, "ico"@,
    ]
}

pub open spec fn exts_three_d() -> Seq<Seq<char>> {
    seq![
        "stl"@, "obj"@, "3mf"@, "step"@, "stp"@, "blend"@, "blend1"@, "fbx"@, "glb"@, "gltf"@,
        "dae"@, "ply"@,
    ]
}

pub open spec fn exts_code() -> Seq<Seq<char>> {
    seq![
        "js"@, "jsx"@, "mjs"@, "cjs"@, "ts"@, "tsx"@, "py"@, "rs"@, "go"@, "php"@, "dart"@,
        "sh"@, "bash"@, "zsh"@, "fish"@, "lua"@, "java"@, "c"@, "h"@, "cc"@, "cpp"@, "cxx"@,
        "hpp"@, "cs"@, "rb"@, "swift"@, "kt"@, "kts"@, "scala"@, "vue"@, "svelte"@,
    ]
}

pub open spec fn exts_data() -> Seq<Seq<char>> {
    seq![
        "json"@, "jsonl"@, "yaml"@, "yml"@, "toml"@, "csv"@, "tsv"@, "xml"@, "sql"@, "sqlite"@,
        "sqlite3"@, "db"@, "parquet"@, "ndjson"@,
    ]
}

pub open spec fn exts_document() -> Seq<Seq<char>> {
    seq![
        "pdf"@, "txt"@, "md"@, "markdown"@, "rtf"@, "doc"@, "docx"@, "odt"@, "xls"@, "xlsx"@,
        "ods"@, "ppt"@, "pptx"@, "odp"@, "epub"@, "mobi"@,
    ]
}

pub open spec fn exts_audio() -> Seq<Seq<char>> {
    seq!["mp3"@, "wav"@, "flac"@, "aac"@, "m4a"@, "ogg"@, "opus"@, "wma"@]
}

pub open spec fn exts_video() -> Seq<Seq<char>> {
    seq!["mp4"@, "mov"@, "mkv"@, "avi"@, "webm"@, "m4v"@, "mpg"@, "mpeg"@, "wmv"@]
}

pub open spec fn exts_archive() -> Seq<Seq<char>> {
    seq!["zip"@, "rar"@, "7z"@, "tar"@, "gz"@, "bz2"@, "xz"@, "tgz"@, "tbz2"@, "txz"@]
}

pub open spec fn exts_junk() -> Seq<Seq<char>> {
    seq!["tmp"@, "swp"@, "swo"@]
}

pub open spec fn group(exts: Seq<Seq<char>>, c: Category) -> Seq<(Seq<char>, Category)> {
    exts.map_values(|e: Seq<char>| (e, c))
}

/// The built-in extension table, in the order entries are looked up.
pub open spec fn builtin_table() -> Seq<(Seq<char>, Category)> {
    group(exts_image(), Category::Image) + group(exts_three_d(), Category::ThreeD) + group(
        exts_code(),
        Category::Code,
    ) + group(exts_data(), Category::Data) + group(exts_document(), Category::Document)
        + group(exts_audio(), Category::Audio) + group(exts_video(), Category::Video) + group(
        exts_archive(),
        Category::Archive,
    ) + group(exts_junk(), Category::Junk)
}

/// The category a table gives an extension: its first entry for it.
pub open spec fn lookup(t: Seq<(Seq<char>, Category)>, ext: Seq<char>) -> Option<Category>
    decreases t.len(),
{
    if t.len() == 0 {
        None
    } else if t[0].0 == ext {
        Some(t[0].1)
    } else {
        lookup(t.drop_first(), ext)
    }
}

/// The lowercased extension of a path, or empty when it has none.
pub open spec fn ext_key(path: Seq<char>) -> Seq<char> {
    match extension(path) {
        Some(e) => lower_seq(e),
        None => Seq::empty(),
    }
}

/// What `classify` assigns: `Unknown` for anything that is not an ordinary
/// unprotected file, otherwise the table's category for its extension,
/// falling back to `Other`.
pub open spec fn classification(table: Seq<(Seq<char>, Category)>, e: Entry) -> Category {
    if e.is_symlink || e.is_dir || e.protected {
        Category::Unknown
    } else {
        match lookup(table, ext_key(e.path@)) {
            Some(c) => c,
            None => Category::Other,
        }
    }
}

/// Extension-to-category table.
pub struct CategoryDB {
    map: Vec<(String, Category)>,
}

impl View for CategoryDB {
    type V = Seq<(Seq<char>, Category)>;

    closed spec fn view(&self) -> Seq<(Seq<char>, Category)> {
        self.map@.map_values(|p: (String, Category)| (p.0@, p.1))
    }
}

fn add_group(map: &mut Vec<(String, Category)>, exts: &[&str], c: Category)
    ensures
        final(map)@.map_values(|p: (String, Category)| (p.0@, p.1)) == old(map)@.map_values(
            |p: (String, Category)| (p.0@, p.1),
        ) + group(exts@.map_values(|s: &str| s@), c),
{
    let ghost start = old(map)@.map_values(|p: (String, Category)| (p.0@, p.1));
    let mut i: usize = 0;
    while i < exts.len()
        invariant
            i <= exts@.len(),
            map@.map_values(|p: (String, Category)| (p.0@, p.1)) == start + group(
                exts@.map_values(|s: &str| s@).subrange(0, i as int),
                c,
            ),
        decreases exts@.len() - i,
    {
        let ghost before = map@;
        map.push((crate::text::str_to_string(exts[i]), c));
        proof {
            let g = exts@.map_values(|s: &str| s@);
            assert(group(g.subrange(0, i + 1), c) =~= group(g.subrange(0, i as int), c).push(
                (exts@[i as int]@, c),
            ));
            assert(map@.map_values(|p: (String, Category)| (p.0@, p.1)) =~= before.map_values(
                |p: (String, Category)| (p.0@, p.1),
            ).push((exts@[i as int]@, c)));
        }
        i += 1;
    }
    assert(exts@.map_values(|s: &str| s@).subrange(0, exts@.len() as int) =~= exts@.map_values(
        |s: &str| s@,
    ));
}

impl CategoryDB {
    /// The built-in table (see `builtin_table`).
    pub fn new() -> (r: Self)
        ensures
            r@ == builtin_table(),
    {
        let mut map: Vec<(String, Category)> = Vec::new();
        let image = [
            "jpg", "jpeg", "png", "gif", "webp", "svg", "bmp", "tiff", "tif", "heic", "heif",
            "avif", "ico",
        ];
        let three_d = [
            "stl", "obj", "3mf", "step", "stp", "blend", "blend1", "fbx", "glb", "gltf", "dae",
            "ply",
        ];
        let code = [
            "js", "jsx", "mjs", "cjs", "ts", "tsx", "py", "rs", "go", "php", "dart", "sh", "bash",
            "zsh", "fish", "lua", "java", "c", "h", "cc", "cpp", "cxx", "hpp", "cs", "rb", "swift",
            "kt", "kts", "scala", "vue", "svelte",
        ];
        let data = [
            "json", "jsonl", "yaml", "yml", "toml", "csv", "tsv", "xml", "sql", "sqlite",
            "sqlite3", "db", "parquet", "ndjson",
        ];
        let document = [
            "pdf", "txt", "md", "markdown", "rtf", "doc", "docx", "odt", "xls", "xlsx", "ods",
            "ppt", "pptx", "odp", "epub", "mobi",
        ];
        let audio = ["mp3", "wav", "flac", "aac", "m4a", "ogg", "opus", "wma"];
        let video = ["mp4", "mov", "mkv", "avi", "webm", "m4v", "mpg", "mpeg", "wmv"];
        let archive = ["zip", "rar", "7z", "tar", "gz", "bz2", "xz", "tgz", "tbz2", "txz"];
        let junk = ["tmp", "swp", "swo"];
        add_group(&mut map, &image, Category::Image);
        add_group(&mut map, &three_d, Category::ThreeD);
        add_group(&mut map, &code, Category::Code);
        add_group(&mut map, &data, Category::Data);
        add_group(&mut map, &document, Category::Document);
        add_group(&mut map, &audio, Category::Audio);
        add_group(&mut map, &video, Category::Video);
        add_group(&mut map, &archive, Category::Archive);
        add_group(&mut map, &junk, Category::Junk);
        proof {
            assert(image@.map_values(|s: &str| s@) =~= exts_image());
            assert(three_d@.map_values(|s: &str| s@) =~= exts_three_d());
            assert(code@.map_values(|s: &str| s@) =~= exts_code());
            assert(data@.map_values(|s: &str| s@) =~= exts_data());
            assert(document@.map_values(|s: &str| s@) =~= exts_document());
            assert(audio@.map_values(|s: &str| s@) =~= exts_audio());
            assert(video@.map_values(|s: &str| s@) =~= exts_video());
            assert(archive@.map_values(|s: &str| s@) =~= exts_archive());
            assert(junk@.map_values(|s: &str| s@) =~= exts_junk());
            assert(Seq::<(String, Category)>::empty().map_values(|p: (String, Category)| (p.0@, p.1))
                =~= Seq::<(Seq<char>, Category)>::empty());
        }
        let db = CategoryDB { map };
        assert(db@ =~= builtin_table());
        db
    }

    fn lookup_ext(&self, ext: &str) -> (r: Option<Category>)
        ensures
            r == lookup(self@, ext@),
    {
        let mut i: usize = 0;
        assert(self@.subrange(0, self@.len() as int) =~= self@);
        while i < self.map.len()
            invariant
                i <= self.map@.len(),
                lookup(self@, ext@) == lookup(self@.subrange(i as int, self@.len() as int), ext@),
            decreases self.map@.len() - i,
        {
            let ghost rest = self@.subrange(i as int, self@.len() as int);
            assert(rest.drop_first() =~= self@.subrange(i + 1, self@.len() as int));
            assert(rest[0] == (self.map@[i as int].0@, self.map@[i as int].1));
            if str_eq(self.map[i].0.as_str(), ext) {
                return Some(self.map[i].1);
            }
            i += 1;
        }
        None
    }

    /// Classifies an ordinary file by extension (case-insensitive). A
    /// directory, symlink or protected entry is `Unknown`; an ordinary file
    /// with no recognized extension is `Other`.
    pub fn classify(&self, entry: &mut Entry)
        ensures
            *final(entry) == (Entry {
                classified_as: Some(classification(self@, *old(entry))),
                ..*old(entry)
            }),
    {
        if entry.is_symlink || entry.is_dir || entry.protected {
            entry.classified_as = Some(Category::Unknown);
            return;
        }
        let ext = match path_extension(entry.path.as_str()) {
            Some(e) => to_lower(e.as_str()),
            None => {
                let e = String::new();
                assert(lower_seq(e@) =~= Seq::<char>::empty());
                e
            },
        };
        let cat = self.lookup_ext(ext.as_str());
        entry.classified_as = Some(
            match cat {
                Some(c) => c,
                None => Category::Other,
            },
        );
    }
}

impl Default for CategoryDB {
    fn default() -> (r: Self)
        ensures
            r@ == builtin_table(),
    {
        Self::new()
    }
}

/// Classification is by extension, ignoring case: two ordinary files whose
/// extensions differ only in letter case (`.JPG`, `.jpg`) always fall in
/// the same category, whatever their names.
pub proof fn law_classification_ignores_case(table: Seq<(Seq<char>, Category)>, a: Entry, b: Entry)
    requires
        a.is_symlink == b.is_symlink,
        a.is_dir == b.is_dir,
        a.protected == b.protected,
        match (extension(a.path@), extension(b.path@)) {
            (Some(x), Some(y)) => lower_seq(x) == lower_seq(y),
            (None, None) => true,
            _ => false,
        },
    ensures
        classification(table, a) == classification(table, b),
{
}


/// The category the documented extension table gives a lowercased
/// extension: the group that lists it, or `Other` for any other (or no)
/// extension.
pub open spec fn table_category(ext: Seq<char>) -> Category {
    if exts_image().contains(ext) {
        Category::Image
    } else if exts_three_d().contains(ext) {
        Category::ThreeD
    } else if exts_code().contains(ext) {
        Category::Code
    } else if exts_data().contains(ext) {
        Category::Data
    } else if exts_document().contains(ext) {
        Category::Document
    } else if exts_audio().contains(ext) {
        Category::Audio
    } else if exts_video().contains(ext) {
        Category::Video
    } else if exts_archive().contains(ext) {
        Category::Archive
    } else if exts_junk().contains(ext) {
        Category::Junk
    } else {
        Category::Other
    }
}

proof fn lemma_lookup_concat(a: Seq<(Seq<char>, Category)>, b: Seq<(Seq<char>, Category)>, k: Seq<char>)
    ensures
        lookup(a + b, k) == match lookup(a, k) {
            Some(c) => Some(c),
            None => lookup(b, k),
        },
    decreases a.len(),
{
    if a.len() == 0 {
        assert(a + b =~= b);
    } else {
        assert((a + b).drop_first() =~= a.drop_first() + b);
        assert((a + b)[0] == a[0]);
        lemma_lookup_concat(a.drop_first(), b, k);
    }
}

proof fn lemma_lookup_group(exts: Seq<Seq<char>>, c: Category, k: Seq<char>)
    ensures
        lookup(group(exts, c), k) == if exts.contains(k) {
            Some(c)
        } else {
            None::<Category>
        },
    decreases exts.len(),
{
    if exts.len() > 0 {
        assert(group(exts, c).drop_first() =~= group(exts.drop_first(), c));
        lemma_lookup_group(exts.drop_first(), c, k);
        if exts.contains(k) && exts[0] != k {
            let w = choose|w: int| 0 <= w < exts.len() && exts[w] == k;
            assert(exts.drop_first()[w - 1] == k);
        }
        if exts.drop_first().contains(k) {
            let w = choose|w: int| 0 <= w < exts.drop_first().len() && exts.drop_first()[w] == k;
            assert(exts[w + 1] == k);
        }
    }
}

/// The built-in classification of an ordinary file (not a directory,
/// symlink or protected entry) is the documented table's category for its
/// lowercased extension, and `Other` when the table does not list it.
pub proof fn law_builtin_classification(e: Entry)
    requires
        !e.is_symlink,
        !e.is_dir,
        !e.protected,
    ensures
        classification(builtin_table(), e) == table_category(ext_key(e.path@)),
{
    let k = ext_key(e.path@);
    let g1 = group(exts_image(), Category::Image);
    let g2 = group(exts_three_d(), Category::ThreeD);
    let g3 = group(exts_code(), Category::Code);
    let g4 = group(exts_data(), Category::Data);
    let g5 = group(exts_document(), Category::Document);
    let g6 = group(exts_audio(), Category::Audio);
    let g7 = group(exts_video(), Category::Video);
    let g8 = group(exts_archive(), Category::Archive);
    let g9 = group(exts_junk(), Category::Junk);
    lemma_lookup_group(exts_image(), Category::Image, k);
    lemma_lookup_group(exts_three_d(), Category::ThreeD, k);
    lemma_lookup_group(exts_code(), Category::Code, k);
    lemma_lookup_group(exts_data(), Category::Data, k);
    lemma_lookup_group(exts_document(), Category::Document, k);
    lemma_lookup_group(exts_audio(), Category::Audio, k);
    lemma_lookup_group(exts_video(), Category::Video, k);
    lemma_lookup_group(exts_archive(), Category::Archive, k);
    lemma_lookup_group(exts_junk(), Category::Junk, k);
    lemma_lookup_concat(g1, g2, k);
    lemma_lookup_concat(g1 + g2, g3, k);
    lemma_lookup_concat(g1 + g2 + g3, g4, k);
    lemma_lookup_concat(g1 + g2 + g3 + g4, g5, k);
    lemma_lookup_concat(g1 + g2 + g3 + g4 + g5, g6, k);
    lemma_lookup_concat(g1 + g2 + g3 + g4 + g5 + g6, g7, k);
    lemma_lookup_concat(g1 + g2 + g3 + g4 + g5 + g6 + g7, g8, k);
    lemma_lookup_concat(g1 + g2 + g3 + g4 + g5 + g6 + g7 + g8, g9, k);
}

/// The documented extension table, group by group.
pub proof fn law_extension_table()
    ensures
        exts_image() == seq![
            "jpg"@, "jpeg"@, "png"@, "gif"@, "webp"@, "svg"@, "bmp"@, "tiff"@, "tif"@, "heic"@,
            "heif"@, "avif"@, "ico"@,
        ],
        exts_three_d() == seq![
            "stl"@, "obj"@, "3mf"@, "step"@, "stp"@, "blend"@, "blend1"@, "fbx"@, "glb"@, "gltf"@,
            "dae"@, "ply"@,
        ],
        exts_code() == seq![
            "js"@, "jsx"@, "mjs"@, "cjs"@, "ts"@, "tsx"@, "py"@, "rs"@, "go"@, "php"@, "dart"@,
            "sh"@, "bash"@, "zsh"@, "fish"@, "lua"@, "java"@, "c"@, "h"@, "cc"@, "cpp"@, "cxx"@,
            "hpp"@, "cs"@, "rb"@, "swift"@, "kt"@, "kts"@, "scala"@, "vue"@, "svelte"@,
        ],
        exts_data() == seq![
            "json"@, "jsonl"@, "yaml"@, "yml"@, "toml"@, "csv"@, "tsv"@, "xml"@, "sql"@, "sqlite"@,
            "sqlite3"@, "db"@, "parquet"@, "ndjson"@,
        ],
        exts_document() == seq![
            "pdf"@, "txt"@, "md"@, "markdown"@, "rtf"@, "doc"@, "docx"@, "odt"@, "xls"@, "xlsx"@,
            "ods"@, "ppt"@, "pptx"@, "odp"@, "epub"@, "mobi"@,
        ],
        exts_audio() == seq!["mp3"@, "wav"@, "flac"@, "aac"@, "m4a"@, "ogg"@, "opus"@, "wma"@],
        exts_video() == seq!["mp4"@, "mov"@, "mkv"@, "avi"@, "webm"@, "m4v"@, "mpg"@, "mpeg"@, "wmv"@],
        exts_archive() == seq!["zip"@, "rar"@, "7z"@, "tar"@, "gz"@, "bz2"@, "xz"@, "tgz"@, "tbz2"@, "txz"@],
        exts_junk() == seq!["tmp"@, "swp"@, "swo"@],
{
}
} // verus!
