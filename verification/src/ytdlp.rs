//! What the library decides around `yt-dlp`: how its `--print` line is read,
//! which files of the cache belong to a track, how its failures are told
//! apart, and how it is described.
use crate::text::{
    chars_of, concat, has, join, join_all, lines, lines_of, matches_at, same, split, split_on,
    rfind_char_before, str_contains, str_ends_with, str_eq, str_starts_with, str_views, string_of, trim,
    trimmed, views,
};
use vstd::prelude::*;

verus! {

/// What `str::to_lowercase` makes of a text (Unicode lower case, the same on
/// every machine).
pub uninterp spec fn lowercase(s: Seq<char>) -> Seq<char>;

/// `str::to_lowercase`.
///
/// Wraps `str::to_lowercase`; its result is named by `lowercase`.
#[verifier::external_body]
fn to_lower(s: &str) -> (r: String)
    ensures
        r@ == lowercase(s@),
{
    s.to_lowercase()
}

/// The text after the last `/` of a path (all of it when there is none).
pub open spec fn last_segment(p: Seq<char>) -> Seq<char> {
    p.skip(rfind_char_before(p, '/', p.len() as int) + 1)
}

/// A path whose file name every platform reads alike: it holds no `\` and no
/// `:` and does not start with `//` (so no platform sees a prefix or another
/// separator in it), and its last `/`-separated segment is a name, not empty,
/// `.` or `..`. That segment is then its final component.
pub open spec fn plain_path(p: Seq<char>) -> bool {
    &&& !p.contains('\\')
    &&& !p.contains(':')
    &&& !(p.len() >= 2 && p[0] == '/' && p[1] == '/')
    &&& last_segment(p).len() > 0
    &&& last_segment(p) != "."@
    &&& last_segment(p) != ".."@
}

/// The extension of a file name, as `Path::extension` documents it: what
/// follows its last `.`; none when it has no `.`, or when its only `.` is the
/// one it begins with.
pub open spec fn name_ext(f: Seq<char>) -> Option<Seq<char>> {
    let d = rfind_char_before(f, '.', f.len() as int);
    if d <= 0 {
        None
    } else {
        Some(f.skip(d + 1))
    }
}

/// `Path::extension` of a path, as text.
///
/// Wraps `std::path::Path::extension` (with `OsStr::to_str`, which cannot fail
/// on text). Its documentation gives the extension of the file name, the final
/// component; on a [`plain_path`] that is the last `/`-separated segment, and
/// the contract states the documented rule there. Elsewhere the components
/// depend on the platform (`\` separates and `C:` or `//server` start a prefix
/// on Windows only), so only what holds on every platform is stated: no `.` in
/// the path, no extension; an extension holds no `.`.
#[verifier::external_body]
fn path_extension(p: &str) -> (r: Option<String>)
    ensures
        plain_path(p@) ==> opt_view(r) == name_ext(last_segment(p@)),
        !p@.contains('.') ==> r is None,
        r matches Some(e) ==> !e@.contains('.'),
{
    std::path::Path::new(p).extension().and_then(|e| e.to_str()).map(|e| e.to_string())
}

/// Why `yt-dlp` could not get a track.
#[derive(Debug, Clone, Copy, PartialEq, Eq, Structural)]
pub enum Motivo {
    /// The track does not exist, is private, was removed or is blocked where
    /// the user is: no other extractor will mend that.
    NoDisponible,
    /// The extraction itself failed (network, a change at YouTube, an old
    /// binary): another way is worth a try.
    Extraccion,
}

/// A failure of `yt-dlp` on a track, with what it said.
#[derive(Debug, Clone)]
pub struct SinPista {
    pub motivo: Motivo,
    pub detalle: String,
}

/// What `yt-dlp` writes on stderr when a track is simply not there, compared
/// in lower case and as substrings.
pub open spec fn unavailable_marks() -> Seq<Seq<char>> {
    seq![
        "video unavailable"@,
        "private video"@,
        "has been removed"@,
        "account associated with this video has been terminated"@,
        "available in your country"@,
        "blocked it in your country"@,
        "members-only"@,
        "join this channel"@,
        "removed by the uploader"@,
        "no longer available"@,
        "this video has been removed"@,
    ]
}

/// Mark `i` of [`unavailable_marks`] occurs in `lowered`.
pub open spec fn mark_in(lowered: Seq<char>, i: int) -> bool {
    has(lowered, unavailable_marks()[i])
}

/// The reason behind a (lower-cased) stderr: definitive only when one of the
/// marks occurs in it.
pub open spec fn motivo_spec(lowered: Seq<char>) -> Motivo {
    if exists|i: int| 0 <= i < 11 && #[trigger] mark_in(lowered, i) {
        Motivo::NoDisponible
    } else {
        Motivo::Extraccion
    }
}

/// The reason behind a stderr already in lower case.
pub fn motivo_de(lowered: &str) -> (m: Motivo)
    ensures
        m == motivo_spec(lowered@),
{
    let marks = [
        "video unavailable",
        "private video",
        "has been removed",
        "account associated with this video has been terminated",
        "available in your country",
        "blocked it in your country",
        "members-only",
        "join this channel",
        "removed by the uploader",
        "no longer available",
        "this video has been removed",
    ];
    proof {
        assert(marks@.map_values(|m: &str| m@) =~= unavailable_marks());
    }
    let mut i: usize = 0;
    while i < 11
        invariant
            0 <= i <= 11,
            marks@.map_values(|m: &str| m@) == unavailable_marks(),
            forall|j: int| 0 <= j < i ==> !#[trigger] mark_in(lowered@, j),
        decreases 11 - i,
    {
        if str_contains(lowered, marks[i]) {
            proof {
                assert(marks@.map_values(|m: &str| m@)[i as int] == marks@[i as int]@);
                assert(mark_in(lowered@, i as int));
            }
            return Motivo::NoDisponible;
        }
        proof {
            assert(marks@.map_values(|m: &str| m@)[i as int] == marks@[i as int]@);
        }
        i = i + 1;
    }
    Motivo::Extraccion
}

/// Whether a failure is definitive, from the end of what `yt-dlp` wrote on
/// stderr. In doubt, [`Motivo::Extraccion`]: being wrong that way costs one
/// more attempt; the other way, a track left silent that could play.
pub fn clasificar(tail: &str) -> (m: Motivo)
    ensures
        m == motivo_spec(lowercase(tail@)),
{
    let t = to_lower(tail);
    motivo_de(t.as_str())
}

/// The last three lines of a text, last first, joined with ` | `: what is
/// kept of `yt-dlp`'s stderr in an error.
pub open spec fn tail_summary(text: Seq<char>) -> Seq<char> {
    let ls = lines_of(text).reverse();
    join(ls.take(if ls.len() < 3 { ls.len() as int } else { 3 }), " | "@)
}

/// The last three lines of `text`, last first, joined with ` | `.
pub fn stderr_tail(text: &str) -> (r: String)
    ensures
        r@ == tail_summary(text@),
{
    let t = chars_of(text);
    let ls = lines(t.as_slice());
    let mut picked: Vec<Vec<char>> = Vec::new();
    let n = ls.len();
    let ghost rev = views(ls@).reverse();
    let mut k: usize = 0;
    while k < n && k < 3
        invariant
            n == ls@.len(),
            views(ls@) == lines_of(text@),
            rev == views(ls@).reverse(),
            0 <= k <= n,
            k <= 3,
            views(picked@) == rev.take(k as int),
        decreases n - k,
    {
        let l = ls[n - 1 - k].clone();
        proof {
            assert(l@ == views(ls@)[n - 1 - k]);
            assert(rev[k as int] == views(ls@)[n - 1 - k]);
            assert(views(picked@.push(l)) =~= views(picked@).push(l@));
            assert(rev.take(k as int).push(rev[k as int]) =~= rev.take(k + 1));
        }
        picked.push(l);
        k = k + 1;
    }
    let sep = chars_of(" | ");
    let joined = join_all(&picked, sep.as_slice());
    proof {
        assert(rev.take(if rev.len() < 3 { rev.len() as int } else { 3 }) == rev.take(k as int));
    }
    string_of(joined.as_slice())
}

/// Name of the file that marks a download as complete.
pub fn ok_marker(path: &str) -> (r: String)
    ensures
        r@ == path@ + ".ok"@,
{
    concat(path, ".ok")
}

/// The files of a track in the cache are named `<id>.<something>`.
pub open spec fn of_track(name: Seq<char>, video_id: Seq<char>) -> bool {
    matches_at(name, video_id + "."@, 0)
}

/// A file name ends with `.ok`.
pub open spec fn is_marker_name(name: Seq<char>) -> bool {
    name.len() >= 3 && matches_at(name, ".ok"@, name.len() - 3)
}

/// The file belongs to the track (`<id>.` at its start).
pub fn belongs_to(name: &str, video_id: &str) -> (b: bool)
    ensures
        b == of_track(name@, video_id@),
{
    let pre = concat(video_id, ".");
    str_starts_with(name, pre.as_str())
}

/// The file is the completion marker of the track.
pub fn is_marker_of(name: &str, video_id: &str) -> (b: bool)
    ensures
        b == (of_track(name@, video_id@) && is_marker_name(name@)),
{
    proof {
        reveal_strlit(".ok");
    }
    belongs_to(name, video_id) && str_ends_with(name, ".ok")
}

/// The file is audio of the track (not its marker).
pub fn is_audio_of(name: &str, video_id: &str) -> (b: bool)
    ensures
        b == (of_track(name@, video_id@) && !is_marker_name(name@)),
{
    proof {
        reveal_strlit(".ok");
    }
    belongs_to(name, video_id) && !str_ends_with(name, ".ok")
}

/// How `yt-dlp` is run on this machine.
#[derive(Debug, Clone)]
pub struct YtDlp {
    program: String,
    prefix: Vec<String>,
    pub version: String,
}

/// The characters of each string.
fn char_vecs(v: &Vec<String>) -> (r: Vec<Vec<char>>)
    ensures
        views(r@) == str_views(v@),
{
    let mut out: Vec<Vec<char>> = Vec::new();
    let mut i: usize = 0;
    while i < v.len()
        invariant
            0 <= i <= v@.len(),
            views(out@) == str_views(v@).take(i as int),
        decreases v@.len() - i,
    {
        let c = chars_of(v[i].as_str());
        proof {
            assert(views(out@.push(c)) =~= views(out@).push(c@));
            assert(str_views(v@)[i as int] == v@[i as int]@);
            assert(str_views(v@).take(i as int).push(c@) =~= str_views(v@).take(i + 1));
        }
        out.push(c);
        i = i + 1;
    }
    proof {
        assert(str_views(v@).take(v@.len() as int) =~= str_views(v@));
    }
    out
}

impl YtDlp {
    /// `yt-dlp` as run by `program` after the arguments `prefix` (such as
    /// `python -m yt_dlp`), of the given version.
    pub fn new(program: String, prefix: Vec<String>, version: String) -> (y: YtDlp)
        ensures
            y.program_view() == program@,
            y.prefix_views() == str_views(prefix@),
            y.version_view() == version@,
    {
        YtDlp { program, prefix, version }
    }

    pub closed spec fn program_view(&self) -> Seq<char> {
        self.program@
    }

    pub closed spec fn version_view(&self) -> Seq<char> {
        self.version@
    }

    pub closed spec fn prefix_views(&self) -> Seq<Seq<char>> {
        str_views(self.prefix@)
    }

    /// The program that is run.
    pub fn program(&self) -> (r: &str)
        ensures
            r@ == self.program_view(),
    {
        self.program.as_str()
    }

    /// The arguments that go before `yt-dlp`'s own.
    pub fn prefix(&self) -> (r: &Vec<String>)
        ensures
            str_views(r@) == self.prefix_views(),
    {
        &self.prefix
    }

    /// How it is run, for the diagnostics panel: the program, then the
    /// prefix arguments separated by spaces.
    pub fn describe(&self) -> (r: String)
        ensures
            r@ == if self.prefix_views().len() == 0 {
                self.program_view()
            } else {
                self.program_view() + " "@ + join(self.prefix_views(), " "@)
            },
    {
        if self.prefix.len() == 0 {
            return self.program.clone();
        }
        let parts = char_vecs(&self.prefix);
        let sp = chars_of(" ");
        let joined = join_all(&parts, sp.as_slice());
        let mut v = chars_of(self.program.as_str());
        let mut s2 = chars_of(" ");
        v.append(&mut s2);
        let mut j = joined;
        v.append(&mut j);
        string_of(v.as_slice())
    }
}

/// What `yt-dlp` knows of a track before downloading it.
#[derive(Debug, Clone)]
pub struct Info {
    pub path: String,
    pub size: Option<u64>,
    pub ext: String,
    pub acodec: Option<String>,
    pub title: Option<String>,
    pub author: Option<String>,
    pub duration_ms: Option<u64>,
    pub thumbnail: Option<String>,
}

/// The MIME type of an audio extension.
pub open spec fn mime_for_ext(ext: Seq<char>) -> Option<Seq<char>> {
    if ext == "m4a"@ || ext == "mp4"@ {
        Some("audio/mp4"@)
    } else if ext == "webm"@ {
        Some("audio/webm"@)
    } else if ext == "opus"@ || ext == "ogg"@ {
        Some("audio/ogg"@)
    } else if ext == "mp3"@ {
        Some("audio/mpeg"@)
    } else {
        None
    }
}

/// Every track the downloader can produce has a MIME type the player can be
/// handed: `m4a`, the format asked for first, is MP4 audio like `mp4` (the
/// same container); `webm`, asked for next, is WebM audio; the extension a
/// track gets when neither its path nor `yt-dlp` names one is MP4 audio; the
/// Opus files of `opus` and `ogg` are Ogg audio and `mp3` is MPEG audio; and
/// whatever type is given is an `audio/` one.
pub proof fn lemma_requested_formats_have_mime(ext: Seq<char>)
    ensures
        mime_for_ext("m4a"@) == Some("audio/mp4"@),
        mime_for_ext("m4a"@) == mime_for_ext("mp4"@),
        mime_for_ext("webm"@) == Some("audio/webm"@),
        mime_for_ext("opus"@) == Some("audio/ogg"@),
        mime_for_ext("opus"@) == mime_for_ext("ogg"@),
        mime_for_ext("mp3"@) == Some("audio/mpeg"@),
        mime_for_ext(ext_spec(None, None)) == Some("audio/mp4"@),
        mime_for_ext(ext) matches Some(m) ==> m.len() > 6 && m.take(6) == "audio/"@,
{
    reveal_strlit("m4a");
    reveal_strlit("mp4");
    reveal_strlit("webm");
    reveal_strlit("opus");
    reveal_strlit("ogg");
    reveal_strlit("mp3");
    reveal_strlit("audio/mp4");
    reveal_strlit("audio/webm");
    reveal_strlit("audio/ogg");
    reveal_strlit("audio/mpeg");
    reveal_strlit("audio/");
    assert("webm"@.len() != "m4a"@.len() && "webm"@.len() != "mp4"@.len());
    assert("opus"@ != "webm"@) by {
        assert("opus"@[0] != "webm"@[0]);
    }
    assert("ogg"@ != "m4a"@ && "mp3"@ != "m4a"@) by {
        assert("ogg"@[0] != "m4a"@[0] && "mp3"@[1] != "m4a"@[1]);
    }
    assert("ogg"@ != "mp4"@ && "mp3"@ != "mp4"@) by {
        assert("ogg"@[0] != "mp4"@[0] && "mp3"@[2] != "mp4"@[2]);
    }
    assert("mp3"@ != "ogg"@) by {
        assert("mp3"@[0] != "ogg"@[0]);
    }
    assert("opus"@.len() != "m4a"@.len() && "opus"@.len() != "mp4"@.len());
    assert("ogg"@.len() != "webm"@.len() && "ogg"@.len() != "opus"@.len());
    assert("mp3"@.len() != "webm"@.len() && "mp3"@.len() != "opus"@.len());
    assert("audio/mp4"@.take(6) =~= "audio/"@);
    assert("audio/webm"@.take(6) =~= "audio/"@);
    assert("audio/ogg"@.take(6) =~= "audio/"@);
    assert("audio/mpeg"@.take(6) =~= "audio/"@);
}

impl Info {
    /// The MIME type of the file, by its extension.
    pub fn mime(&self) -> (r: Option<String>)
        ensures
            match r {
                Some(m) => mime_for_ext(self.ext@) == Some(m@),
                None => mime_for_ext(self.ext@) is None,
            },
    {
        let e = self.ext.as_str();
        if str_eq(e, "m4a") || str_eq(e, "mp4") {
            Some("audio/mp4".to_owned())
        } else if str_eq(e, "webm") {
            Some("audio/webm".to_owned())
        } else if str_eq(e, "opus") || str_eq(e, "ogg") {
            Some("audio/ogg".to_owned())
        } else if str_eq(e, "mp3") {
            Some("audio/mpeg".to_owned())
        } else {
            None
        }
    }
}

/// Field `i` of the `--print` line: trimmed, and absent when missing, empty
/// or `NA`.
pub open spec fn field(fs: Seq<Seq<char>>, i: int) -> Option<Seq<char>> {
    if 0 <= i < fs.len() && trim(fs[i]).len() > 0 && trim(fs[i]) != "NA"@ {
        Some(trim(fs[i]))
    } else {
        None
    }
}

/// The fields of the `--print` line, split at the unit separator.
pub open spec fn info_fields(line: Seq<char>) -> Seq<Seq<char>> {
    split_on(line, seq!['\u{1F}'])
}

/// The `--print` line read into text fields. The size and the duration stay
/// as text: `yt-dlp` prints them as decimal numbers.
#[derive(Debug, Clone)]
pub struct InfoLine {
    pub path: String,
    pub size: Option<String>,
    pub ext: String,
    pub acodec: Option<String>,
    pub title: Option<String>,
    pub author: Option<String>,
    pub duration: Option<String>,
    pub thumbnail: Option<String>,
}

/// Field `i` of some split fields.
fn get_field(fs: &Vec<Vec<char>>, i: usize) -> (r: Option<String>)
    ensures
        match r {
            Some(s) => field(views(fs@), i as int) == Some(s@),
            None => field(views(fs@), i as int) is None,
        },
{
    if i >= fs.len() {
        return None;
    }
    let t = trimmed(fs[i].as_slice());
    let na = chars_of("NA");
    proof {
        assert(views(fs@)[i as int] == fs@[i as int]@);
    }
    if t.len() == 0 || same(t.as_slice(), na.as_slice()) {
        None
    } else {
        Some(string_of(t.as_slice()))
    }
}

/// The optional field in the text an option of `String` holds.
pub open spec fn opt_view(o: Option<String>) -> Option<Seq<char>> {
    match o {
        Some(s) => Some(s@),
        None => None,
    }
}

/// The extension of a track: that of its path, else the one `yt-dlp`
/// declared, in lower case; else `m4a`.
pub open spec fn ext_spec(path_ext: Option<Seq<char>>, declared: Option<Seq<char>>) -> Seq<char> {
    match path_ext {
        Some(e) => lowercase(e),
        None => match declared {
            Some(d) => lowercase(d),
            None => "m4a"@,
        },
    }
}

/// The extension of a track from the extension of its path (as
/// `Path::extension` found it) and the one `yt-dlp` declared.
pub fn pick_ext(path_ext: Option<String>, declared: Option<String>) -> (r: String)
    ensures
        r@ == ext_spec(opt_view(path_ext), opt_view(declared)),
{
    match path_ext {
        Some(e) => to_lower(e.as_str()),
        None => match declared {
            Some(d) => to_lower(d.as_str()),
            None => "m4a".to_owned(),
        },
    }
}

/// The extension of the track at `path`: that of the path, else the one
/// `yt-dlp` declared, in lower case; else `m4a`.
pub fn track_ext(path: &str, declared: Option<String>) -> (r: String)
    ensures
        plain_path(path@) ==> r@ == ext_spec(name_ext(last_segment(path@)), opt_view(declared)),
        !path@.contains('.') ==> r@ == ext_spec(None, opt_view(declared)),
        r@ == ext_spec(None, opt_view(declared)) || exists|e: Seq<char>|
            #![trigger lowercase(e)]
            r@ == lowercase(e) && !e.contains('.'),
{
    let pe = path_extension(path);
    let ghost pe_v = opt_view(pe);
    let r = pick_ext(pe, declared);
    proof {
        if let Some(e) = pe_v {
            assert(r@ == lowercase(e));
        }
    }
    r
}

/// Reads the `--print` line: path, size, extension, codec, title, author,
/// duration and thumbnail, separated by `U+001F`. `None` when it holds no
/// path.
pub fn parse_info(line: &str) -> (r: Option<InfoLine>)
    ensures
        r is Some <==> field(info_fields(line@), 0) is Some,
        r matches Some(i) ==> {
            let fs = info_fields(line@);
            &&& Some(i.path@) == field(fs, 0)
            &&& opt_view(i.size) == field(fs, 1)
            &&& opt_view(i.acodec) == field(fs, 3)
            &&& opt_view(i.title) == field(fs, 4)
            &&& opt_view(i.author) == field(fs, 5)
            &&& opt_view(i.duration) == field(fs, 6)
            &&& opt_view(i.thumbnail) == field(fs, 7)
            &&& plain_path(i.path@) ==> i.ext@ == ext_spec(
                name_ext(last_segment(i.path@)),
                field(fs, 2),
            )
            &&& !i.path@.contains('.') ==> i.ext@ == ext_spec(None, field(fs, 2))
            &&& (i.ext@ == ext_spec(None, field(fs, 2)) || exists|e: Seq<char>|
                #![trigger lowercase(e)]
                i.ext@ == lowercase(e) && !e.contains('.'))
        },
{
    let l = chars_of(line);
    let sep = vec!['\u{1F}'];
    let fs = split(l.as_slice(), sep.as_slice());
    proof {
        assert(sep@ =~= seq!['\u{1F}']);
    }
    let path = match get_field(&fs, 0) {
        Some(p) => p,
        None => {
            return None;
        },
    };
    let declared = get_field(&fs, 2);
    let ext = track_ext(path.as_str(), declared);
    Some(InfoLine {
        path,
        size: get_field(&fs, 1),
        ext,
        acodec: get_field(&fs, 3),
        title: get_field(&fs, 4),
        author: get_field(&fs, 5),
        duration: get_field(&fs, 6),
        thumbnail: get_field(&fs, 7),
    })
}

} // verus!
