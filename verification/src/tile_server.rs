//! The tile server, mounted at `/tiles`: it serves the tiles of archives that
//! are selected by name, and a TileJSON description of each.
//!
//! `/tiles/{name}/{z}/{x}/{y}.{ext}` is a tile, `/tiles/{name}.json` the
//! description of an archive. A name may hold `/`.

use crate::config;
use crate::number;
use crate::reply;
use crate::reply::{Body, BodyView, Reply, ReplyView};
use crate::text;
use crate::tiles;
use crate::tiles::TileType;
use vstd::hash_map::StringHashMap;
use vstd::prelude::*;
use vstd::slice::slice_subrange;
use vstd::string::*;

verus! {

// ---------------------------------------------------------------------------
// Names and paths
// ---------------------------------------------------------------------------

/// Whether a segment of a name is neither empty nor a step in a directory.
pub open spec fn plain_segment(seg: Seq<char>) -> bool {
    seg.len() > 0 && seg != ".."@ && seg != "."@
}

/// Whether a name cannot leave the archives: all of its segments are plain,
/// and it has only characters of archive names.
pub open spec fn safe_name(name: Seq<char>) -> bool {
    &&& name.len() > 0
    &&& forall|i: int|
        0 <= i < text::split(name, '/').len() ==> plain_segment(
            #[trigger] text::split(name, '/')[i],
        )
    &&& config::name_chars(name)
}

/// Tests whether a name is safe.
pub fn name_is_safe(name: &str) -> (r: bool)
    ensures
        r == safe_name(name@),
{
    let chars = text::to_chars(name);
    if chars.len() == 0 || !config::has_name_chars(chars.as_slice()) {
        return false;
    }
    let segs = text::split_at_each(chars.as_slice(), '/');
    let ghost all = text::split(name@, '/');
    let mut i: usize = 0;
    while i < segs.len()
        invariant
            i <= segs@.len(),
            text::views(segs@) == all,
            all == text::split(name@, '/'),
            forall|j: int| 0 <= j < i ==> plain_segment(#[trigger] all[j]),
        decreases segs@.len() - i,
    {
        assert(all[i as int] == segs@[i as int]@);
        let seg = segs[i];
        if seg.len() == 0 || text::is_text(seg, "..") || text::is_text(seg, ".") {
            assert(!plain_segment(all[i as int]));
            return false;
        }
        i += 1;
    }
    true
}

/// What a path asks for.
pub struct Parsed {
    /// The name of the archive.
    pub name: String,
    /// The tile; `None` for the description of the archive.
    pub tile: Option<(u8, u32, u32)>,
    pub ext: String,
}

/// A [`Parsed`] with its texts as character sequences.
pub struct ParsedView {
    pub name: Seq<char>,
    pub tile: Option<(u8, u32, u32)>,
    pub ext: Seq<char>,
}

impl View for Parsed {
    type V = ParsedView;

    open spec fn view(&self) -> ParsedView {
        ParsedView { name: self.name@, tile: self.tile, ext: self.ext@ }
    }
}

/// The path without the `/` that it starts with.
pub open spec fn after_slash(path: Seq<char>) -> Seq<char> {
    if text::starts_with(path, "/"@) {
        path.skip(1)
    } else {
        path
    }
}

/// The tile that a path `name/z/x/y.ext` asks for: its last three segments
/// are the zoom, the column, and the row with the extension.
pub open spec fn tile_path(path: Seq<char>) -> Option<ParsedView> {
    let segs = text::split(path, '/');
    let n = segs.len();
    if n < 4 {
        None
    } else {
        let name = text::join(segs.take(n - 3), '/');
        match (
            number::unsigned(segs[n - 3], u8::MAX as nat),
            number::unsigned(segs[n - 2], u32::MAX as nat),
            text::rsplit_once(segs[n - 1], '.'),
        ) {
            (Ok(z), Ok(x), Some((row, ext))) => match number::unsigned(row, u32::MAX as nat) {
                Ok(y) => if ext.len() > 0 && safe_name(name) {
                    Some(ParsedView { name, tile: Some((z as u8, x as u32, y as u32)), ext })
                } else {
                    None
                },
                Err(_) => None,
            },
            _ => None,
        }
    }
}

/// What a path after `/tiles` asks for. A path that ends in `.json` asks for
/// the description of the archive before it.
pub open spec fn parsed_path(path: Seq<char>) -> Option<ParsedView> {
    let p = after_slash(path);
    if p.len() == 0 {
        None
    } else if text::ends_with(p, ".json"@) {
        let name = p.take(p.len() - 5);
        if safe_name(name) {
            Some(ParsedView { name, tile: None, ext: "json"@ })
        } else {
            None
        }
    } else {
        tile_path(p)
    }
}

/// Joins texts, with a separator between neighbours.
fn join_texts(pieces: &Vec<&[char]>, end: usize, sep: char) -> (r: Vec<char>)
    requires
        end <= pieces@.len(),
    ensures
        r@ == text::join(text::views(pieces@).take(end as int), sep),
{
    let ghost all = text::views(pieces@);
    let mut r: Vec<char> = Vec::new();
    let mut i: usize = 0;
    while i < end
        invariant
            i <= end <= pieces@.len(),
            all == text::views(pieces@),
            r@ == text::join(all.take(i as int), sep),
        decreases end - i,
    {
        let ghost more = all.take(i + 1);
        assert(more.drop_last() =~= all.take(i as int));
        assert(more.last() == pieces@[i as int]@);
        if i > 0 {
            r.push(sep);
        }
        text::push_all(&mut r, pieces[i]);
        assert(r@ =~= text::join(more, sep));
        i += 1;
    }
    r
}

/// Parses a path `name/z/x/y.ext`.
fn parse_tile(path: &[char]) -> (r: Option<Parsed>)
    ensures
        match r {
            Some(p) => tile_path(path@) == Some(p@),
            None => tile_path(path@) is None,
        },
{
    let segs = text::split_at_each(path, '/');
    let n: usize = segs.len();
    if n < 4 {
        return None;
    }
    let ghost all = text::split(path@, '/');
    assert(all[n - 1] == segs@[n - 1]@);
    assert(all[n - 2] == segs@[n - 2]@);
    assert(all[n - 3] == segs@[n - 3]@);
    let (row, ext) = match text::split_at_last(segs[n - 1], '.') {
        Some(p) => p,
        None => {
            return None;
        },
    };
    if ext.len() == 0 {
        return None;
    }
    let z: u8 = match number::parse_unsigned(segs[n - 3], u8::MAX as u64) {
        Ok(v) => v as u8,
        Err(_) => {
            return None;
        },
    };
    let x: u32 = match number::parse_unsigned(segs[n - 2], u32::MAX as u64) {
        Ok(v) => v as u32,
        Err(_) => {
            return None;
        },
    };
    let y: u32 = match number::parse_unsigned(row, u32::MAX as u64) {
        Ok(v) => v as u32,
        Err(_) => {
            return None;
        },
    };
    let joined = join_texts(&segs, n - 3, '/');
    let name = text::to_text(joined.as_slice());
    if name_is_safe(name.as_str()) {
        Some(Parsed { name, tile: Some((z, x, y)), ext: text::to_text(ext) })
    } else {
        None
    }
}

/// Parses the path after `/tiles`, e.g. `/name/z/x/y.ext` or `/name.json`.
pub fn parse_tile_path(path: &str) -> (r: Option<Parsed>)
    ensures
        match r {
            Some(p) => parsed_path(path@) == Some(p@) && safe_name(p.name@),
            None => parsed_path(path@) is None,
        },
{
    let chars = text::to_chars(path);
    proof {
        reveal_strlit("/");
        reveal_strlit(".json");
    }
    let all = chars.as_slice();
    let p: &[char] = if text::has_prefix(all, "/") {
        slice_subrange(all, 1, all.len())
    } else {
        all
    };
    assert(p@ =~= after_slash(path@));
    if p.len() == 0 {
        return None;
    }
    if text::has_suffix(p, ".json") {
        let end: usize = p.len() - 5;
        let name = text::to_text(slice_subrange(p, 0, end));
        assert(name@ =~= p@.take(p@.len() - 5));
        if name_is_safe(name.as_str()) {
            return Some(Parsed { name, tile: None, ext: "json".to_owned() });
        }
        return None;
    }
    parse_tile(p)
}

/// Finds the source of the archive with a name: aliases are the only way to
/// serve one.
pub fn resolve_source<'a>(name: &str, aliases: &'a StringHashMap<String>) -> (r: Option<&'a str>)
    ensures
        match r {
            Some(s) => aliases@.contains_key(name@) && s@ == aliases@[name@]@,
            None => !aliases@.contains_key(name@),
        },
{
    match aliases.get(name) {
        Some(s) => Some(s.as_str()),
        None => None,
    }
}

// ---------------------------------------------------------------------------
// Caching
// ---------------------------------------------------------------------------

/// Whether a text can be the value of a header: it has no control characters
/// but tabs.
pub open spec fn header_text(s: Seq<char>) -> bool {
    forall|i: int|
        0 <= i < s.len() ==> (#[trigger] s[i]) == '\t' || (s[i] >= ' ' && s[i] != '\u{7f}')
}

/// `poem::http::HeaderValue::from_str`: it accepts exactly the texts without
/// control characters other than the tab.
#[verifier::external_body]
fn is_header_value(s: &str) -> (r: bool)
    ensures
        r == header_text(s@),
{
    poem::http::HeaderValue::from_str(s).is_ok()
}

/// How long responses may be kept: what the setting says where a header can
/// say it, else the default.
pub open spec fn tile_caching(setting: Option<Seq<char>>) -> Seq<char> {
    match setting {
        Some(s) => if header_text(s) {
            s
        } else {
            config::default_cache_control()
        },
        None => config::default_cache_control(),
    }
}

/// A response that may be kept.
pub open spec fn cached(r: ReplyView, setting: Option<Seq<char>>) -> ReplyView {
    ReplyView { cache_control: Some(tile_caching(setting)), ..r }
}

/// Says how long a response may be kept.
pub fn finish(reply: Reply, setting: Option<&str>) -> (r: Reply)
    ensures
        r@ == cached(reply@, text::opt_str(setting)),
{
    proof {
        reveal_strlit("public, max-age=86400");
    }
    let value = config::tiles_cache_control(setting);
    let value = if is_header_value(value) {
        value
    } else {
        "public, max-age=86400"
    };
    Reply {
        status: reply.status,
        content_type: reply.content_type,
        cache_control: Some(value.to_owned()),
        etag: reply.etag,
        body: reply.body,
    }
}

// ---------------------------------------------------------------------------
// Serving
// ---------------------------------------------------------------------------

/// What a request leads to: an answer, or an archive to open.
pub enum Start {
    Respond(Reply),
    Open { parsed: Parsed, source: String },
}

/// A [`Start`] with its texts as character sequences.
pub enum StartView {
    Respond(ReplyView),
    Open { parsed: ParsedView, source: Seq<char> },
}

impl View for Start {
    type V = StartView;

    open spec fn view(&self) -> StartView {
        match *self {
            Start::Respond(r) => StartView::Respond(r@),
            Start::Open { parsed, source } => StartView::Open {
                parsed: parsed@,
                source: source@,
            },
        }
    }
}

/// The path below `/tiles`.
pub open spec fn below_tiles(path: Seq<char>) -> Seq<char> {
    if text::starts_with(path, "/tiles"@) {
        path.skip(6)
    } else {
        Seq::empty()
    }
}

/// What a request leads to. A path that means nothing and a name without an
/// alias are not found, with no word on caching: an alias may be added.
pub open spec fn started(
    post: bool,
    path: Seq<char>,
    aliases: Map<Seq<char>, Seq<char>>,
) -> StartView {
    if post {
        StartView::Respond(reply::plain_text(405, "Method not allowed"@))
    } else {
        match parsed_path(below_tiles(path)) {
            None => StartView::Respond(reply::plain_text(404, "Invalid URL"@)),
            Some(parsed) => if aliases.contains_key(parsed.name) {
                StartView::Open { parsed, source: aliases[parsed.name] }
            } else {
                StartView::Respond(reply::plain_text(404, "Unknown archive"@))
            },
        }
    }
}

/// Begins to serve a request, given whether its method is POST and its path.
pub fn start(post: bool, path: &str, aliases: &StringHashMap<String>) -> (r: Start)
    ensures
        r@ == started(post, path@, config::alias_map(aliases@)),
{
    if post {
        return Start::Respond(reply::text_reply(405, "Method not allowed"));
    }
    let chars = text::to_chars(path);
    proof {
        reveal_strlit("/tiles");
    }
    let rest = if text::has_prefix(chars.as_slice(), "/tiles") {
        text::to_text(slice_subrange(chars.as_slice(), 6, chars.len()))
    } else {
        String::new()
    };
    assert(rest@ =~= below_tiles(path@));
    match parse_tile_path(rest.as_str()) {
        None => Start::Respond(reply::text_reply(404, "Invalid URL")),
        Some(parsed) => match resolve_source(parsed.name.as_str(), aliases) {
            None => Start::Respond(reply::text_reply(404, "Unknown archive")),
            Some(source) => {
                let source = source.to_owned();
                Start::Open { parsed, source }
            },
        },
    }
}

/// The answer where an archive cannot be opened, whatever the cause. It is not
/// to be kept: the cause may pass.
pub fn archive_not_found() -> (r: Reply)
    ensures
        r@ == reply::plain_text(404, "Archive not found"@),
{
    reply::text_reply(404, "Archive not found")
}

/// What an open archive says of itself: what its tiles are, and its zooms.
#[derive(Clone, Copy, Debug, PartialEq, Eq, Structural)]
pub struct ArchiveHeader {
    pub tile_type: TileType,
    pub min_zoom: u8,
    pub max_zoom: u8,
}

/// What is to be done with an open archive.
pub enum Step {
    Respond(Reply),
    /// Describe the archive, with this template for the URLs of its tiles.
    Describe { tile_url: String },
    /// Read a tile.
    Read { z: u8, x: u32, y: u32 },
}

/// A [`Step`] with its texts as character sequences.
pub enum StepView {
    Respond(ReplyView),
    Describe { tile_url: Seq<char> },
    Read { z: u8, x: u32, y: u32 },
}

impl View for Step {
    type V = StepView;

    open spec fn view(&self) -> StepView {
        match *self {
            Step::Respond(r) => StepView::Respond(r@),
            Step::Describe { tile_url } => StepView::Describe { tile_url: tile_url@ },
            Step::Read { z, x, y } => StepView::Read { z, x, y },
        }
    }
}

/// What a request says of where it was sent, and the settings that matter.
pub struct Site<'a> {
    /// The setting for the public host name.
    pub public_hostname: Option<&'a str>,
    /// The `Host` header.
    pub host: Option<&'a str>,
    /// The `X-Forwarded-Proto` header.
    pub forwarded_proto: Option<&'a str>,
    /// The setting for the caching of responses.
    pub cache_control: Option<&'a str>,
}

/// The host that URLs name: the public host name, or else the `Host` header
/// unless it is empty.
pub open spec fn url_host(
    public_hostname: Option<Seq<char>>,
    host: Option<Seq<char>>,
) -> Option<Seq<char>> {
    match public_hostname {
        Some(h) => Some(h),
        None => match host {
            Some(h) => if h.len() > 0 {
                Some(h)
            } else {
                None
            },
            None => None,
        },
    }
}

/// Whether a host is this machine.
pub open spec fn is_loopback(host: Seq<char>) -> bool {
    ||| text::starts_with(host, "localhost"@)
    ||| text::starts_with(host, "127.0.0.1"@)
    ||| text::starts_with(host, "[::1]"@)
}

/// The scheme of URLs: the first that proxies report, else `http` for this
/// machine and `https` for any other.
pub open spec fn url_scheme(forwarded: Option<Seq<char>>, host: Seq<char>) -> Seq<char> {
    let reported = match forwarded {
        Some(f) => text::trim(text::split(f, ',')[0]),
        None => Seq::empty(),
    };
    if reported.len() > 0 {
        reported
    } else if is_loopback(host) {
        "http"@
    } else {
        "https"@
    }
}

/// The address of an archive. A host that names a scheme is taken as it is.
pub open spec fn archive_url(
    host: Seq<char>,
    forwarded: Option<Seq<char>>,
    name: Seq<char>,
) -> Seq<char> {
    if text::contains(host, "://"@) {
        host + "/tiles/"@ + name
    } else {
        url_scheme(forwarded, host) + "://"@ + host + "/tiles/"@ + name
    }
}

/// The extension in the URLs of tiles.
pub open spec fn url_extension(t: TileType) -> Seq<char> {
    if tiles::extension(t).len() == 0 {
        "mvt"@
    } else {
        tiles::extension(t)
    }
}

/// The template for the URLs of an archive's tiles.
pub open spec fn tile_template(base: Seq<char>, ext: Seq<char>) -> Seq<char> {
    base + "/{z}/{x}/{y}."@ + ext
}

/// What is to be done to describe an archive.
pub open spec fn describe_step(name: Seq<char>, t: TileType, site: Site) -> StepView {
    match url_host(text::opt_str(site.public_hostname), text::opt_str(site.host)) {
        None => StepView::Respond(
            cached(
                reply::plain_text(
                    400,
                    "cannot build TileJSON: no Host header and PUBLIC_HOSTNAME is not set"@,
                ),
                text::opt_str(site.cache_control),
            ),
        ),
        Some(host) => StepView::Describe {
            tile_url: tile_template(
                archive_url(host, text::opt_str(site.forwarded_proto), name),
                url_extension(t),
            ),
        },
    }
}

/// What is to be done to serve a tile: one outside the zooms of the archive is
/// not found, and an extension that is not that of the archive is refused.
pub open spec fn tile_step(
    tile: (u8, u32, u32),
    ext: Seq<char>,
    header: ArchiveHeader,
    setting: Option<Seq<char>>,
) -> StepView {
    let (z, x, y) = tile;
    let own = tiles::extension(header.tile_type);
    if z < header.min_zoom || z > header.max_zoom {
        StepView::Respond(cached(reply::plain_text(404, "Tile not found"@), setting))
    } else if tiles::type_of_extension(ext) != Some(header.tile_type) && own.len() > 0 {
        StepView::Respond(
            cached(
                reply::plain_text(
                    400,
                    "requested ."@ + ext + " but archive has type ."@ + own,
                ),
                setting,
            ),
        )
    } else {
        StepView::Read { z, x, y }
    }
}

/// What is to be done with an open archive.
pub open spec fn opened(parsed: ParsedView, header: ArchiveHeader, site: Site) -> StepView {
    match parsed.tile {
        None => describe_step(parsed.name, header.tile_type, site),
        Some(tile) => tile_step(tile, parsed.ext, header, text::opt_str(site.cache_control)),
    }
}

fn write_url(host: &str, forwarded: Option<&str>, name: &str) -> (r: String)
    ensures
        r@ == archive_url(host@, text::opt_str(forwarded), name@),
{
    let chars = text::to_chars(host);
    let h = chars.as_slice();
    if text::has_text(h, "://") {
        let mut r = host.to_owned();
        r.append("/tiles/");
        r.append(name);
        return r;
    }
    let reported: String = match forwarded {
        Some(f) => {
            let chars = text::to_chars(f);
            let parts = text::split_at_each(chars.as_slice(), ',');
            proof {
                text::split_characterized(f@, ',');
                assert(text::views(parts@)[0] == parts@[0]@);
            }
            text::to_text(text::trimmed(parts[0]))
        },
        None => String::new(),
    };
    let mut r = if !reported.as_str().is_empty() {
        reported
    } else if text::has_prefix(h, "localhost") || text::has_prefix(h, "127.0.0.1")
        || text::has_prefix(h, "[::1]") {
        "http".to_owned()
    } else {
        "https".to_owned()
    };
    r.append("://");
    r.append(host);
    r.append("/tiles/");
    r.append(name);
    r
}

fn describe(name: &str, t: TileType, site: &Site) -> (r: Step)
    ensures
        r@ == describe_step(name@, t, *site),
{
    let host: &str = match site.public_hostname {
        Some(h) => h,
        None => match site.host {
            Some(h) if !h.is_empty() => h,
            _ => {
                return Step::Respond(
                    finish(
                        reply::text_reply(
                            400,
                            "cannot build TileJSON: no Host header and PUBLIC_HOSTNAME is not set",
                        ),
                        site.cache_control,
                    ),
                );
            },
        },
    };
    let own = tiles::tile_extension(t);
    let ext = if own.is_empty() {
        "mvt"
    } else {
        own
    };
    let mut url = write_url(host, site.forwarded_proto, name);
    url.append("/{z}/{x}/{y}.");
    url.append(ext);
    Step::Describe { tile_url: url }
}

fn find_tile(
    tile: (u8, u32, u32),
    ext: &str,
    header: ArchiveHeader,
    setting: Option<&str>,
) -> (r: Step)
    ensures
        r@ == tile_step(tile, ext@, header, text::opt_str(setting)),
{
    let (z, x, y) = tile;
    if z < header.min_zoom || z > header.max_zoom {
        return Step::Respond(finish(reply::text_reply(404, "Tile not found"), setting));
    }
    let own = tiles::tile_extension(header.tile_type);
    let matching = match tiles::ext_to_type(ext) {
        Some(t) => t == header.tile_type,
        None => false,
    };
    if !matching && !own.is_empty() {
        let mut m = "requested .".to_owned();
        m.append(ext);
        m.append(" but archive has type .");
        m.append(own);
        return Step::Respond(finish(reply::text_reply(400, m.as_str()), setting));
    }
    Step::Read { z, x, y }
}

/// Decides what is to be done with an open archive.
pub fn with_archive(parsed: &Parsed, header: ArchiveHeader, site: &Site) -> (r: Step)
    ensures
        r@ == opened(parsed@, header, *site),
{
    match parsed.tile {
        None => describe(parsed.name.as_str(), header.tile_type, site),
        Some(tile) => find_tile(tile, parsed.ext.as_str(), header, site.cache_control),
    }
}

/// The answer with the description of an archive, or with why there is none.
/// A failure is not to be kept.
pub open spec fn described(json: Result<Seq<char>, Seq<char>>, setting: Option<Seq<char>>) -> ReplyView {
    match json {
        Ok(json) => cached(
            ReplyView {
                status: 200,
                content_type: Some("application/json"@),
                cache_control: None,
                etag: None,
                body: BodyView::Text(json),
            },
            setting,
        ),
        Err(e) => reply::plain_text(500, "failed to build tilejson: "@ + e),
    }
}

/// The view of a text or an error text.
pub open spec fn text_or_error(r: Result<String, String>) -> Result<Seq<char>, Seq<char>> {
    match r {
        Ok(s) => Ok(s@),
        Err(e) => Err(e@),
    }
}

/// Answers with the description of an archive.
pub fn reply_with_description(json: Result<String, String>, setting: Option<&str>) -> (r: Reply)
    ensures
        r@ == described(text_or_error(json), text::opt_str(setting)),
{
    match json {
        Ok(json) => finish(
            Reply {
                status: 200,
                content_type: Some("application/json".to_owned()),
                cache_control: None,
                etag: None,
                body: Body::Text(json),
            },
            setting,
        ),
        Err(e) => {
            let mut m = "failed to build tilejson: ".to_owned();
            m.append(e.as_str());
            reply::text_reply(500, m.as_str())
        },
    }
}

/// The answer with a tile: an empty one where the archive has none there, and
/// an error, which is not to be kept, where it could not be read.
pub open spec fn tile_answer(
    tile: Result<Option<Seq<u8>>, Seq<char>>,
    t: TileType,
    setting: Option<Seq<char>>,
) -> ReplyView {
    match tile {
        Ok(Some(bytes)) => cached(
            ReplyView {
                status: 200,
                content_type: Some(tiles::content_type(t)),
                cache_control: None,
                etag: None,
                body: BodyView::Bytes(bytes),
            },
            setting,
        ),
        Ok(None) => cached(
            ReplyView {
                status: 204,
                content_type: None,
                cache_control: None,
                etag: None,
                body: BodyView::Empty,
            },
            setting,
        ),
        Err(e) => reply::plain_text(500, "failed to read tile: "@ + e),
    }
}

/// The view of a tile or an error text.
pub open spec fn tile_or_error(r: Result<Option<Vec<u8>>, String>) -> Result<
    Option<Seq<u8>>,
    Seq<char>,
> {
    match r {
        Ok(Some(bytes)) => Ok(Some(bytes@)),
        Ok(None) => Ok(None),
        Err(e) => Err(e@),
    }
}

/// Answers with a tile.
pub fn reply_with_tile(
    tile: Result<Option<Vec<u8>>, String>,
    t: TileType,
    setting: Option<&str>,
) -> (r: Reply)
    ensures
        r@ == tile_answer(tile_or_error(tile), t, text::opt_str(setting)),
{
    match tile {
        Ok(Some(bytes)) => finish(
            Reply {
                status: 200,
                content_type: Some(tiles::tile_content_type(t).to_owned()),
                cache_control: None,
                etag: None,
                body: Body::Bytes(bytes),
            },
            setting,
        ),
        Ok(None) => finish(
            Reply {
                status: 204,
                content_type: None,
                cache_control: None,
                etag: None,
                body: Body::Empty,
            },
            setting,
        ),
        Err(e) => {
            let mut m = "failed to read tile: ".to_owned();
            m.append(e.as_str());
            reply::text_reply(500, m.as_str())
        },
    }
}

// ---------------------------------------------------------------------------
// What holds of every request
// ---------------------------------------------------------------------------

/// Only remote archives are served: whatever the path, an archive that is
/// opened is one that an alias names, and that is an `http(s)` URL.
pub proof fn archives_are_remote(post: bool, path: Seq<char>, setting: Option<Seq<char>>)
    ensures
        started(post, path, config::aliases(setting)) matches StartView::Open { parsed, source }
            ==> safe_name(parsed.name) && config::is_url(source),
{
    match started(post, path, config::aliases(setting)) {
        StartView::Open { parsed, source } => {
            config::aliases_are_urls(setting, parsed.name);
        },
        _ => {},
    }
}

/// An alias serves its archive: with the single entry `alias=url`, the path of
/// a tile opens the archive at the URL.
pub proof fn alias_serves_its_archive(
    alias: Seq<char>,
    url: Seq<char>,
    z: u8,
    x: u32,
    y: u32,
    ext: Seq<char>,
)
    requires
        safe_name(alias),
        config::is_url(url),
        text::trim(url) == url,
        !url.contains('\n'),
        !url.contains(','),
        ext.len() > 0,
        !ext.contains('/'),
        !ext.contains('.'),
        ext != "json"@,
    ensures
        started(
            false,
            "/tiles/"@ + path_of_tile(alias, z, x, y, ext),
            config::aliases(Some(alias.push('=') + url)),
        ) == (StartView::Open {
            parsed: ParsedView { name: alias, tile: Some((z, x, y)), ext },
            source: url,
        }),
{
    text::split_whole(url, ',');
    config::alias_reads_back(alias, url);
    tile_path_reads_back(alias, z, x, y, ext);
}

/// A failure that may pass is not kept: a path that is not found now, an
/// archive that cannot be opened, and a description or a tile that cannot be
/// read.
pub proof fn failures_are_not_kept(
    post: bool,
    path: Seq<char>,
    aliases: Map<Seq<char>, Seq<char>>,
    cause: Seq<char>,
    t: TileType,
    setting: Option<Seq<char>>,
)
    ensures
        started(post, path, aliases) matches StartView::Respond(r) ==> r.cache_control is None,
        reply::plain_text(404, "Archive not found"@).cache_control is None,
        described(Err(cause), setting).cache_control is None,
        tile_answer(Err(cause), t, setting).cache_control is None,
{
}

/// Whatever the setting, the caching header that a response carries can stand
/// in a header.
pub proof fn caching_is_a_header(setting: Option<Seq<char>>)
    ensures
        header_text(tile_caching(setting)),
{
    reveal_strlit("public, max-age=86400");
}

/// The path of a tile.
pub open spec fn path_of_tile(
    name: Seq<char>,
    z: u8,
    x: u32,
    y: u32,
    ext: Seq<char>,
) -> Seq<char> {
    ((name.push('/') + number::decimal(z as nat)).push('/') + number::decimal(x as nat)).push('/')
        + (number::decimal(y as nat).push('.') + ext)
}

/// The path of a tile asks for that tile: `/tiles/{name}/{z}/{x}/{y}.{ext}`,
/// with any safe name and any extension that is a single word other than
/// `json`.
pub proof fn tile_path_reads_back(name: Seq<char>, z: u8, x: u32, y: u32, ext: Seq<char>)
    requires
        safe_name(name),
        ext.len() > 0,
        !ext.contains('/'),
        !ext.contains('.'),
        ext != "json"@,
    ensures
        parsed_path(below_tiles("/tiles/"@ + path_of_tile(name, z, x, y, ext))) == Some(
            ParsedView { name, tile: Some((z, x, y)), ext },
        ),
{
    let (dz, dx, dy) = (
        number::decimal(z as nat),
        number::decimal(x as nat),
        number::decimal(y as nat),
    );
    let row = dy.push('.') + ext;
    let p = path_of_tile(name, z, x, y, ext);
    let full = "/tiles/"@ + p;
    reveal_strlit("/tiles/");
    reveal_strlit("/tiles");
    reveal_strlit("/");
    assert(full.take(6) =~= "/tiles"@);
    let rest = full.skip(6);
    assert(rest.take(1) =~= "/"@);
    assert(rest.skip(1) =~= p);
    assert(after_slash(below_tiles(full)) == p);

    no_slash_in_decimal(z as nat);
    no_slash_in_decimal(x as nat);
    no_slash_in_decimal(y as nat);
    assert(!row.contains('/')) by {
        if row.contains('/') {
            let k = choose|k: int| 0 <= k < row.len() && row[k] == '/';
            if k < dy.len() {
                assert(dy[k] == '/');
            } else if k > dy.len() {
                assert(ext[k - dy.len() - 1] == '/');
            }
        }
    }
    not_json(p.take(p.len() - ext.len() - 1), ext);
    assert(p =~= p.take(p.len() - ext.len() - 1).push('.') + ext);

    let a = name.push('/') + dz;
    let b = a.push('/') + dx;
    text::split_concat(name, dz, '/');
    text::split_concat(a, dx, '/');
    text::split_concat(b, row, '/');
    text::split_whole(dz, '/');
    text::split_whole(dx, '/');
    text::split_whole(row, '/');
    text::split_characterized(name, '/');
    let segs = text::split(p, '/');
    let first = text::split(name, '/');
    assert(segs =~= first + seq![dz] + seq![dx] + seq![row]);
    let n = segs.len();
    assert(segs[n - 3] == dz);
    assert(segs[n - 2] == dx);
    assert(segs[n - 1] == row);
    assert(segs.take(n - 3) =~= first);
    text::rsplit_once_is(dy, '.', ext);
    number::decimal_reads_back(z as nat, u8::MAX as nat);
    number::decimal_reads_back(x as nat, u32::MAX as nat);
    number::decimal_reads_back(y as nat, u32::MAX as nat);
}

proof fn no_slash_in_decimal(n: nat)
    ensures
        !number::decimal(n).contains('/'),
{
    number::decimal_has_digits(n);
    let d = number::decimal(n);
    if d.contains('/') {
        let k = choose|k: int| 0 <= k < d.len() && d[k] == '/';
        assert(number::is_digit(d[k]));
    }
}

/// A text with another extension does not end in `.json`.
proof fn not_json(a: Seq<char>, ext: Seq<char>)
    requires
        !ext.contains('.'),
        ext != "json"@,
    ensures
        !text::ends_with(a.push('.') + ext, ".json"@),
{
    let s = a.push('.') + ext;
    reveal_strlit(".json");
    reveal_strlit("json");
    if text::ends_with(s, ".json"@) {
        let tail = s.skip(s.len() - 5);
        assert(tail[0] == '.' && tail[1] == 'j' && tail[2] == 's' && tail[3] == 'o' && tail[4]
            == 'n');
        if ext.len() > 4 {
            assert(ext[ext.len() - 5] == tail[0]);
            assert(ext.contains('.'));
        } else if ext.len() < 4 {
            assert(tail[4 - ext.len()] == '.');
        } else {
            assert(ext =~= "json"@);
        }
    }
}

/// The path of a description asks for it: `/tiles/{name}.json`, with any safe
/// name.
pub proof fn description_path_reads_back(name: Seq<char>)
    requires
        safe_name(name),
    ensures
        parsed_path(below_tiles("/tiles/"@ + (name + ".json"@))) == Some(
            ParsedView { name, tile: None, ext: "json"@ },
        ),
{
    let p = name + ".json"@;
    let full = "/tiles/"@ + p;
    reveal_strlit("/tiles/");
    reveal_strlit("/tiles");
    reveal_strlit("/");
    reveal_strlit(".json");
    assert(full.take(6) =~= "/tiles"@);
    let rest = full.skip(6);
    assert(rest.take(1) =~= "/"@);
    assert(rest.skip(1) =~= p);
    assert(p.skip(p.len() - 5) =~= ".json"@);
    assert(p.take(p.len() - 5) =~= name);
}

/// The tile that is read is the tile that was named, at its own zoom, column
/// and row. It is read exactly where its zoom is one of the archive's and its
/// extension stands for the archive's kind of tiles, or the kind has none.
pub proof fn tile_read_is_tile_named(
    tile: (u8, u32, u32),
    ext: Seq<char>,
    header: ArchiveHeader,
    setting: Option<Seq<char>>,
)
    ensures
        ({
            let step = tile_step(tile, ext, header, setting);
            let in_zoom = header.min_zoom <= tile.0 <= header.max_zoom;
            let fits = tiles::type_of_extension(ext) == Some(header.tile_type) || tiles::extension(
                header.tile_type,
            ).len() == 0;
            &&& step is Read <==> in_zoom && fits
            &&& step matches StepView::Read { z, x, y } ==> z == tile.0 && x == tile.1 && y == tile.2
            &&& !(step is Describe)
            &&& !in_zoom ==> (step matches StepView::Respond(r) && r.status == 404 && r.body
                == BodyView::Text("Tile not found"@) && r.cache_control == Some(
                tile_caching(setting),
            ))
            &&& in_zoom && !fits ==> (step matches StepView::Respond(r) && r.status == 400 && r.body
                == BodyView::Text(
                "requested ."@ + ext + " but archive has type ."@ + tiles::extension(
                    header.tile_type,
                ),
            ) && r.cache_control == Some(tile_caching(setting)))
        }),
{
}

/// A request for a tile, from its path to the archive: the archive of the name
/// in the path is opened, and the tile of the path is read from it.
pub proof fn requested_tile_is_read(
    name: Seq<char>,
    z: u8,
    x: u32,
    y: u32,
    ext: Seq<char>,
    aliases: Map<Seq<char>, Seq<char>>,
    header: ArchiveHeader,
    site: Site,
)
    requires
        safe_name(name),
        ext.len() > 0,
        !ext.contains('/'),
        !ext.contains('.'),
        ext != "json"@,
        aliases.contains_key(name),
        header.min_zoom <= z <= header.max_zoom,
        tiles::type_of_extension(ext) == Some(header.tile_type),
    ensures
        started(false, "/tiles/"@ + path_of_tile(name, z, x, y, ext), aliases) matches StartView::Open {
            parsed,
            source,
        } && source == aliases[name] && opened(parsed, header, site) == (StepView::Read { z, x, y }),
{
    tile_path_reads_back(name, z, x, y, ext);
}

/// A request for a description, from its path to the archive: the archive of
/// the name is opened, and is described at the address of the host.
pub proof fn requested_archive_is_described(
    name: Seq<char>,
    aliases: Map<Seq<char>, Seq<char>>,
    header: ArchiveHeader,
    site: Site,
    host: Seq<char>,
)
    requires
        safe_name(name),
        aliases.contains_key(name),
        text::opt_str(site.public_hostname) == Some(host) || (site.public_hostname is None
            && text::opt_str(site.host) == Some(host) && host.len() > 0),
    ensures
        started(false, "/tiles/"@ + (name + ".json"@), aliases) matches StartView::Open {
            parsed,
            source,
        } && source == aliases[name] && opened(parsed, header, site) == (StepView::Describe {
            tile_url: archive_url(host, text::opt_str(site.forwarded_proto), name)
                + "/{z}/{x}/{y}."@ + url_extension(header.tile_type),
        }),
{
    description_path_reads_back(name);
}

/// Without a host an archive is not described: the request is at fault.
pub proof fn description_needs_a_host(parsed: ParsedView, header: ArchiveHeader, site: Site)
    requires
        parsed.tile is None,
        site.public_hostname is None,
        site.host is None || text::opt_str(site.host) == Some(Seq::<char>::empty()),
    ensures
        opened(parsed, header, site) matches StepView::Respond(r) && r.status == 400 && r.body
            == BodyView::Text(
            "cannot build TileJSON: no Host header and PUBLIC_HOSTNAME is not set"@,
        ) && r.cache_control == Some(tile_caching(text::opt_str(site.cache_control))),
{
}

/// The tiles of an archive have the extension of its kind; those of a kind
/// without one are taken for vector tiles.
pub proof fn addresses_have_an_extension(t: TileType)
    ensures
        url_extension(t) == (match t {
            TileType::Png => "png"@,
            TileType::Jpeg => "jpg"@,
            TileType::Webp => "webp"@,
            _ => "mvt"@,
        }),
{
    reveal_strlit("mvt");
    reveal_strlit("png");
    reveal_strlit("jpg");
    reveal_strlit("webp");
    reveal_strlit("");
}

/// The address of an archive is at its host, below `/tiles/`. A host with a
/// scheme keeps it; else the scheme is what proxies report first, and where
/// they report none, `http` for this machine and `https` for any other.
pub proof fn address_is_at_its_host(
    host: Seq<char>,
    reported: Seq<char>,
    more: Seq<char>,
    name: Seq<char>,
)
    ensures
        text::contains(host, "://"@) ==> archive_url(host, None, name) == host + "/tiles/"@ + name
            && archive_url(host, Some(reported), name) == host + "/tiles/"@ + name,
        !text::contains(host, "://"@) ==> {
            let rest = "://"@ + host + "/tiles/"@ + name;
            let local = text::starts_with(host, "localhost"@) || text::starts_with(
                host,
                "127.0.0.1"@,
            ) || text::starts_with(host, "[::1]"@);
            let own = if local {
                "http"@
            } else {
                "https"@
            };
            &&& archive_url(host, None, name) == own + rest
            &&& !reported.contains(',') ==> {
                let scheme = if text::trim(reported).len() > 0 {
                    text::trim(reported)
                } else {
                    own
                };
                &&& archive_url(host, Some(reported), name) == scheme + rest
                &&& archive_url(host, Some(reported.push(',') + more), name) == scheme + rest
            }
        },
{
    let rest = "://"@ + host + "/tiles/"@ + name;
    if !text::contains(host, "://"@) {
        let (a, b) = (url_scheme(None, host), url_scheme(Some(reported), host));
        let c = url_scheme(Some(reported.push(',') + more), host);
        assert(a + "://"@ + host + "/tiles/"@ + name =~= a + rest);
        assert(b + "://"@ + host + "/tiles/"@ + name =~= b + rest);
        assert(c + "://"@ + host + "/tiles/"@ + name =~= c + rest);
        if !reported.contains(',') {
            text::split_whole(reported, ',');
            text::split_concat(reported, more, ',');
        }
    }
}

/// What is posted is refused; a path that asks for nothing and a name without
/// an alias are not found; any other request opens the archive of its name.
pub proof fn request_starts(post: bool, path: Seq<char>, aliases: Map<Seq<char>, Seq<char>>)
    ensures
        post ==> (started(post, path, aliases) matches StartView::Respond(r) && r.status == 405
            && r.body == BodyView::Text("Method not allowed"@)),
        !post ==> match parsed_path(below_tiles(path)) {
            None => started(post, path, aliases) matches StartView::Respond(r) && r.status == 404
                && r.body == BodyView::Text("Invalid URL"@),
            Some(v) => if aliases.contains_key(v.name) {
                started(post, path, aliases) matches StartView::Open { parsed, source } && parsed
                    == v && source == aliases[v.name]
            } else {
                started(post, path, aliases) matches StartView::Respond(r) && r.status == 404
                    && r.body == BodyView::Text("Unknown archive"@)
            },
        },
{
}

/// Nothing outside `/tiles` is served.
pub proof fn nothing_outside_is_served(path: Seq<char>, aliases: Map<Seq<char>, Seq<char>>)
    requires
        !text::starts_with(path, "/tiles"@),
    ensures
        started(false, path, aliases) is Respond,
{
    reveal_strlit("/");
    assert(!text::starts_with(Seq::<char>::empty(), "/"@));
}

/// What a path asks for stands in it: a tile by its name, zoom, column, row and
/// extension, one after the other, and a description by its name.
pub proof fn parsed_path_is_the_path(path: Seq<char>, v: ParsedView)
    requires
        parsed_path(path) == Some(v),
    ensures
        safe_name(v.name),
        v.tile is None ==> after_slash(path) == v.name + ".json"@ && v.ext == "json"@,
        v.tile matches Some(tile) ==> v.ext.len() > 0 && exists|z: Seq<char>, x: Seq<char>, y: Seq<char>|
            {
                &&& #[trigger] number::unsigned(z, u8::MAX as nat) == Ok::<nat, number::IntError>(
                    tile.0 as nat,
                )
                &&& #[trigger] number::unsigned(x, u32::MAX as nat) == Ok::<nat, number::IntError>(
                    tile.1 as nat,
                )
                &&& #[trigger] number::unsigned(y, u32::MAX as nat) == Ok::<nat, number::IntError>(
                    tile.2 as nat,
                )
                &&& after_slash(path) == ((v.name.push('/') + z).push('/') + x).push('/') + (y.push(
                    '.',
                ) + v.ext)
            },
{
    let p = after_slash(path);
    if text::ends_with(p, ".json"@) {
        reveal_strlit(".json");
        let name = p.take(p.len() - 5);
        assert(name + p.skip(p.len() - 5) =~= p);
    } else {
        let segs = text::split(p, '/');
        let n = segs.len();
        text::split_characterized(p, '/');
        let (z, x, last) = (segs[n - 3], segs[n - 2], segs[n - 1]);
        let (y, ext) = text::rsplit_once(last, '.')->0;
        text::rsplit_once_parts(last, '.');
        let a = segs.take(n - 1);
        let b = segs.take(n - 2);
        assert(segs.drop_last() =~= a);
        assert(a.drop_last() =~= b);
        assert(b.drop_last() =~= segs.take(n - 3));
        assert(text::join(segs, '/') == text::join(a, '/').push('/') + last);
        assert(text::join(a, '/') == text::join(b, '/').push('/') + x);
        assert(text::join(b, '/') == text::join(segs.take(n - 3), '/').push('/') + z);
        number::unsigned_characterized(z, u8::MAX as nat);
        number::unsigned_characterized(x, u32::MAX as nat);
        number::unsigned_characterized(y, u32::MAX as nat);
    }
}

/// A name is safe exactly where each of the segments between its slashes is:
/// one that is neither empty nor `.` nor `..`, and has only letters, digits,
/// `-`, `_` and `.`.
pub proof fn safe_names(a: Seq<char>, b: Seq<char>, segment: Seq<char>)
    ensures
        safe_name(a.push('/') + b) <==> safe_name(a) && safe_name(b),
        !segment.contains('/') ==> (safe_name(segment) <==> {
            &&& segment.len() > 0
            &&& segment != "."@
            &&& segment != ".."@
            &&& forall|i: int|
                0 <= i < segment.len() ==> {
                    let c = #[trigger] segment[i];
                    ||| 'a' <= c <= 'z'
                    ||| 'A' <= c <= 'Z'
                    ||| '0' <= c <= '9'
                    ||| c == '-'
                    ||| c == '_'
                    ||| c == '.'
                }
        }),
{
    let s = a.push('/') + b;
    text::split_concat(a, b, '/');
    text::split_characterized(a, '/');
    text::split_characterized(b, '/');
    let (sa, sb, ss) = (text::split(a, '/'), text::split(b, '/'), text::split(s, '/'));
    assert(ss == sa + sb);
    if safe_name(s) {
        assert forall|i: int| 0 <= i < sa.len() implies plain_segment(#[trigger] sa[i]) by {
            assert(ss[i] == sa[i]);
        }
        assert forall|i: int| 0 <= i < sb.len() implies plain_segment(#[trigger] sb[i]) by {
            assert(ss[sa.len() + i] == sb[i]);
        }
        assert forall|i: int| 0 <= i < a.len() implies config::name_char(#[trigger] a[i]) by {
            assert(s[i] == a[i]);
        }
        assert forall|i: int| 0 <= i < b.len() implies config::name_char(#[trigger] b[i]) by {
            assert(s[a.len() + 1 + i] == b[i]);
        }
        if a.len() == 0 {
            text::split_whole(a, '/');
            assert(!plain_segment(sa[0]));
        }
        if b.len() == 0 {
            text::split_whole(b, '/');
            assert(!plain_segment(sb[0]));
        }
    }
    if safe_name(a) && safe_name(b) {
        assert forall|i: int| 0 <= i < ss.len() implies plain_segment(#[trigger] ss[i]) by {
            if i < sa.len() {
                assert(ss[i] == sa[i]);
            } else {
                assert(ss[i] == sb[i - sa.len()]);
            }
        }
        assert forall|i: int| 0 <= i < s.len() implies config::name_char(#[trigger] s[i]) by {
            if i < a.len() {
                assert(s[i] == a[i]);
            } else if i > a.len() {
                assert(s[i] == b[i - a.len() - 1]);
            }
        }
    }
    if !segment.contains('/') {
        text::split_whole(segment, '/');
        assert forall|i: int| 0 <= i < segment.len() implies #[trigger] segment[i] != '/' by {
            if segment[i] == '/' {
                assert(segment.contains('/'));
            }
        }
        assert(text::split(segment, '/')[0] == segment);
    }
}

/// A tile is answered with its bytes, whole and under the content type of its
/// kind; one that the archive does not have is answered with nothing; both may
/// be kept as the setting says. A failure is answered with its cause.
pub proof fn tile_is_answered_whole(
    bytes: Seq<u8>,
    cause: Seq<char>,
    t: TileType,
    setting: Option<Seq<char>>,
)
    ensures
        ({
            let r = tile_answer(Ok(Some(bytes)), t, setting);
            &&& r.status == 200
            &&& r.body == BodyView::Bytes(bytes)
            &&& r.content_type == Some(tiles::content_type(t))
            &&& r.cache_control == Some(tile_caching(setting))
            &&& r.etag is None
        }),
        ({
            let r = tile_answer(Ok(None), t, setting);
            &&& r.status == 204
            &&& r.body is Empty
            &&& r.content_type is None
            &&& r.cache_control == Some(tile_caching(setting))
        }),
        ({
            let r = tile_answer(Err(cause), t, setting);
            &&& r.status == 500
            &&& r.body == BodyView::Text("failed to read tile: "@ + cause)
        }),
{
}

/// A description is answered whole, as JSON, and may be kept as the setting
/// says. A failure is answered with its cause.
pub proof fn description_is_answered_whole(
    json: Seq<char>,
    cause: Seq<char>,
    setting: Option<Seq<char>>,
)
    ensures
        ({
            let r = described(Ok(json), setting);
            &&& r.status == 200
            &&& r.body == BodyView::Text(json)
            &&& r.content_type == Some("application/json"@)
            &&& r.cache_control == Some(tile_caching(setting))
        }),
        ({
            let r = described(Err(cause), setting);
            &&& r.status == 500
            &&& r.body == BodyView::Text("failed to build tilejson: "@ + cause)
        }),
{
}

/// A setting that can stand in a header is what responses carry; without one
/// they may be kept for a day. Nothing but the caching of a response changes.
pub proof fn setting_says_how_long(r: ReplyView, s: Seq<char>)
    ensures
        (forall|i: int|
            0 <= i < s.len() ==> (#[trigger] s[i]) == '\t' || (s[i] >= ' ' && s[i] != '\u{7f}'))
            ==> cached(r, Some(s)).cache_control == Some(s),
        cached(r, None).cache_control == Some("public, max-age=86400"@),
        ({
            let k = cached(r, Some(s));
            &&& k.status == r.status
            &&& k.content_type == r.content_type
            &&& k.etag == r.etag
            &&& k.body == r.body
            &&& k.cache_control == Some(s) || k.cache_control == Some("public, max-age=86400"@)
        }),
{
}

/// The views of the steps and of what a path asks for keep all that they hold.
pub proof fn steps_are_kept(step: Step, start: Start, parsed: Parsed)
    ensures
        step matches Step::Read { z, x, y } ==> step@ == (StepView::Read { z, x, y }),
        step matches Step::Describe { tile_url } ==> step@ == (StepView::Describe {
            tile_url: tile_url@,
        }),
        step matches Step::Respond(r) ==> step@ == StepView::Respond(r@),
        start matches Start::Respond(r) ==> start@ == StartView::Respond(r@),
        start matches Start::Open { parsed, source } ==> start@ == (StartView::Open {
            parsed: parsed@,
            source: source@,
        }),
        parsed@.name == parsed.name@,
        parsed@.tile == parsed.tile,
        parsed@.ext == parsed.ext@,
{
}

} // verus!
