//! What the settings of the service mean: the archive aliases, the caching
//! header of tile responses, the allowed origins, and the port.

use crate::number;
use crate::query;
use crate::text;
use vstd::hash_map::StringHashMap;
use vstd::prelude::*;
use vstd::string::*;

verus! {

/// Whether `c` may stand in an archive name.
pub open spec fn name_char(c: char) -> bool {
    ||| 'a' <= c <= 'z'
    ||| 'A' <= c <= 'Z'
    ||| '0' <= c <= '9'
    ||| c == '/'
    ||| c == '-'
    ||| c == '_'
    ||| c == '.'
}

/// Whether `s` has only characters of archive names.
pub open spec fn name_chars(s: Seq<char>) -> bool {
    forall|i: int| 0 <= i < s.len() ==> name_char(#[trigger] s[i])
}

/// Tests whether `s` has only characters of archive names.
pub fn has_name_chars(s: &[char]) -> (r: bool)
    ensures
        r == name_chars(s@),
{
    let mut i: usize = 0;
    while i < s.len()
        invariant
            i <= s@.len(),
            forall|j: int| 0 <= j < i ==> name_char(#[trigger] s@[j]),
        decreases s@.len() - i,
    {
        let c = s[i];
        let ok = ('a' <= c && c <= 'z') || ('A' <= c && c <= 'Z') || ('0' <= c && c <= '9') || c
            == '/' || c == '-' || c == '_' || c == '.';
        if !ok {
            assert(!name_char(s@[i as int]));
            return false;
        }
        i += 1;
    }
    true
}

/// Whether `s` is an `http://` or `https://` URL.
pub open spec fn is_url(s: Seq<char>) -> bool {
    text::starts_with(s, "http://"@) || text::starts_with(s, "https://"@)
}

/// Tests whether `s` is an `http://` or `https://` URL.
pub fn has_url_scheme(s: &[char]) -> (r: bool)
    ensures
        r == is_url(s@),
{
    text::has_prefix(s, "http://") || text::has_prefix(s, "https://")
}

/// Whether a value looks like a source of tiles (a remote URL or a local
/// path), as opposed to a fragment of a URL's query string.
pub open spec fn source_like(val: Seq<char>) -> bool {
    ||| is_url(val)
    ||| text::starts_with(val, "/"@)
    ||| text::starts_with(val, "."@)
    ||| text::ends_with(val, ".pmtiles"@)
}

/// Tests whether a value looks like a source of tiles, as opposed to a
/// fragment of a URL's query string.
pub fn looks_like_source(val: &str) -> (r: bool)
    ensures
        r == source_like(val@),
{
    let val = text::to_chars(val);
    let val = val.as_slice();
    has_url_scheme(val) || text::has_prefix(val, "/") || text::has_prefix(val, ".")
        || text::has_suffix(val, ".pmtiles")
}

/// Whether the text between two commas begins an `alias=source` entry, given
/// the entry that is being put together, if any.
///
/// What stands before the first `=` must be a plausible alias. With nothing
/// pending that is all; otherwise the value must look like a source, or the
/// pending entry must have no `?`, since only a query string can hold a comma.
pub open spec fn begins_alias(frag: Seq<char>, pending: Option<Seq<char>>) -> bool {
    match text::split_once(frag, '=') {
        None => false,
        Some((key, val)) => {
            &&& text::trim(key).len() > 0
            &&& name_chars(text::trim(key))
            &&& match pending {
                None => true,
                Some(p) => source_like(text::trim(val)) || !p.contains('?'),
            }
        },
    }
}

/// Tests whether a comma-separated fragment begins a new `alias=source` entry
/// rather than being the tail of a value that contained a comma.
pub fn starts_new_alias(frag: &str, pending: Option<&str>) -> (r: bool)
    ensures
        r == begins_alias(frag@, text::opt_str(pending)),
{
    let chars = text::to_chars(frag);
    match text::split_at_first(chars.as_slice(), '=') {
        None => false,
        Some((key, val)) => {
            let key = text::trimmed(key);
            if key.len() == 0 || !has_name_chars(key) {
                return false;
            }
            match pending {
                None => true,
                Some(p) => {
                    let val = text::to_text(text::trimmed(val));
                    let p = text::to_chars(p);
                    looks_like_source(val.as_str()) || !text::has_char(p.as_slice(), '?')
                },
            }
        },
    }
}

/// The alias and the source of an entry: the parts before and after its first
/// `=`, trimmed. An entry counts only if both are there and the source is an
/// `http(s)` URL.
pub open spec fn alias_of(entry: Seq<char>) -> Option<(Seq<char>, Seq<char>)> {
    match text::split_once(entry, '=') {
        None => None,
        Some((alias, target)) => {
            let alias = text::trim(alias);
            let target = text::trim(target);
            if alias.len() > 0 && target.len() > 0 && is_url(target) {
                Some((alias, target))
            } else {
                None
            }
        },
    }
}

/// The map with an entry added, if the entry counts.
pub open spec fn with_entry(
    map: Map<Seq<char>, Seq<char>>,
    entry: Seq<char>,
) -> Map<Seq<char>, Seq<char>> {
    match alias_of(entry) {
        Some((alias, target)) => map.insert(alias, target),
        None => map,
    }
}

/// The map with entries added from first to last; a later entry for the same
/// alias wins.
pub open spec fn with_entries(
    map: Map<Seq<char>, Seq<char>>,
    entries: Seq<Seq<char>>,
) -> Map<Seq<char>, Seq<char>>
    decreases entries.len(),
{
    if entries.len() == 0 {
        map
    } else {
        with_entry(with_entries(map, entries.drop_last()), entries.last())
    }
}

/// Archives by alias.
pub type Aliases = StringHashMap<String>;

/// The aliases that a table holds, by text.
pub open spec fn alias_map(table: Map<Seq<char>, String>) -> Map<Seq<char>, Seq<char>> {
    table.map_values(|s: String| s@)
}

/// Adds an `alias=source` entry to the table, if there is one and it counts.
pub fn insert_alias(map: &mut StringHashMap<String>, entry: Option<String>)
    ensures
        alias_map(final(map)@) == match entry {
            Some(e) => with_entry(alias_map(old(map)@), e@),
            None => alias_map(old(map)@),
        },
{
    let entry = match entry {
        Some(e) => e,
        None => {
            return;
        },
    };
    let chars = text::to_chars(entry.as_str());
    if let Some((alias, target)) = text::split_at_first(chars.as_slice(), '=') {
        let alias = text::trimmed(alias);
        let target = text::trimmed(target);
        if alias.len() == 0 || target.len() == 0 || !has_url_scheme(target) {
            return;
        }
        map.insert(text::to_text(alias), text::to_text(target));
        assert(alias_map(map@) =~= alias_map(old(map)@).insert(alias@, target@));
    }
}

/// The entries that are complete, and the one still being put together, once
/// the given comma-separated fragments of a line have been read.
///
/// A fragment that begins an entry completes the pending one; any other that
/// is not blank belongs to the pending entry's value, comma included; without
/// a pending entry it is dropped.
pub open spec fn grouped(frags: Seq<Seq<char>>) -> (Seq<Seq<char>>, Option<Seq<char>>)
    decreases frags.len(),
{
    if frags.len() == 0 {
        (Seq::empty(), None)
    } else {
        let (done, pending) = grouped(frags.drop_last());
        let frag = frags.last();
        if begins_alias(frag, pending) {
            (done + pending_entry(pending), Some(frag))
        } else if text::trim(frag).len() > 0 {
            match pending {
                Some(p) => (done, Some(p.push(',') + frag)),
                None => (done, None),
            }
        } else {
            (done, pending)
        }
    }
}

/// The pending entry as a list of one or no entry.
pub open spec fn pending_entry(pending: Option<Seq<char>>) -> Seq<Seq<char>> {
    match pending {
        Some(p) => seq![p],
        None => Seq::empty(),
    }
}

/// The entries of a line.
pub open spec fn line_entries(line: Seq<char>) -> Seq<Seq<char>> {
    let (done, pending) = grouped(text::split(line, ','));
    done + pending_entry(pending)
}

/// The entries of several lines, in order. A newline always ends an entry.
pub open spec fn entries_of_lines(lines: Seq<Seq<char>>) -> Seq<Seq<char>>
    decreases lines.len(),
{
    if lines.len() == 0 {
        Seq::empty()
    } else {
        entries_of_lines(lines.drop_last()) + line_entries(lines.last())
    }
}

/// The aliases that the setting names.
pub open spec fn aliases(raw: Option<Seq<char>>) -> Map<Seq<char>, Seq<char>> {
    match raw {
        None => Map::empty(),
        Some(raw) => with_entries(Map::empty(), entries_of_lines(text::split(raw, '\n'))),
    }
}

proof fn with_entries_split(
    map: Map<Seq<char>, Seq<char>>,
    a: Seq<Seq<char>>,
    b: Seq<Seq<char>>,
)
    ensures
        with_entries(map, a + b) == with_entries(with_entries(map, a), b),
    decreases b.len(),
{
    if b.len() == 0 {
        assert(a + b =~= a);
    } else {
        assert((a + b).drop_last() =~= a + b.drop_last());
        with_entries_split(map, a, b.drop_last());
    }
}

/// Adds the pending entry, if there is one.
fn push_entry(entries: &mut Vec<String>, pending: Option<String>)
    ensures
        text::texts(final(entries)@) == text::texts(old(entries)@) + pending_entry(
            text::opt_string(pending),
        ),
{
    match pending {
        Some(p) => {
            entries.push(p);
        },
        None => {},
    }
    assert(text::texts(entries@) =~= text::texts(old(entries)@) + pending_entry(
        text::opt_string(pending),
    ));
}

/// Reads the entries of one line of the alias setting.
fn read_line(entries: &mut Vec<String>, line: &[char])
    ensures
        text::texts(final(entries)@) == text::texts(old(entries)@) + line_entries(line@),
{
    let frags = text::split_at_each(line, ',');
    let ghost all = text::split(line@, ',');
    let ghost start = text::texts(entries@);
    let mut pending: Option<String> = None;
    let mut i: usize = 0;
    assert(all.take(0) =~= Seq::empty());
    assert(start + Seq::empty() =~= start);
    while i < frags.len()
        invariant
            i <= frags@.len(),
            text::views(frags@) == all,
            grouped(all.take(i as int)).1 == text::opt_string(pending),
            text::texts(entries@) == start + grouped(all.take(i as int)).0,
        decreases frags@.len() - i,
    {
        assert(all.take(i + 1).drop_last() =~= all.take(i as int));
        assert(all[i as int] == frags@[i as int]@);
        let frag = text::to_text(frags[i]);
        let begins = match &pending {
            Some(p) => starts_new_alias(frag.as_str(), Some(p.as_str())),
            None => starts_new_alias(frag.as_str(), None),
        };
        if begins {
            push_entry(entries, pending);
            pending = Some(frag);
        } else if text::trimmed(frags[i]).len() > 0 {
            pending = match pending {
                Some(mut p) => {
                    p.push(',');
                    p.append(frag.as_str());
                    Some(p)
                },
                None => None,
            };
        }
        i += 1;
    }
    assert(all.take(i as int) =~= all);
    push_entry(entries, pending);
    assert(text::texts(entries@) =~= start + line_entries(line@));
}

/// Reads the entries of the alias setting.
fn read_entries(raw: &str) -> (r: Vec<String>)
    ensures
        text::texts(r@) == entries_of_lines(text::split(raw@, '\n')),
{
    let chars = text::to_chars(raw);
    let lines = text::split_at_each(chars.as_slice(), '\n');
    let ghost all = text::split(raw@, '\n');
    let mut entries: Vec<String> = Vec::new();
    let mut i: usize = 0;
    assert(all.take(0) =~= Seq::empty());
    assert(text::texts(entries@) =~= Seq::empty());
    while i < lines.len()
        invariant
            i <= lines@.len(),
            text::views(lines@) == all,
            text::texts(entries@) == entries_of_lines(all.take(i as int)),
        decreases lines@.len() - i,
    {
        assert(all.take(i + 1).drop_last() =~= all.take(i as int));
        assert(all[i as int] == lines@[i as int]@);
        read_line(&mut entries, lines[i]);
        i += 1;
    }
    assert(all.take(i as int) =~= all);
    entries
}

/// Parses the alias setting: entries `alias=source`, separated by commas or
/// newlines. A source may itself hold a comma in its query string. Entries
/// whose source is not an `http(s)` URL are dropped.
pub fn parse_aliases(raw: Option<&str>) -> (r: StringHashMap<String>)
    ensures
        alias_map(r@) == aliases(text::opt_str(raw)),
{
    let mut map: StringHashMap<String> = StringHashMap::new();
    assert(alias_map(map@) =~= Map::empty());
    let entries = match raw {
        Some(raw) => read_entries(raw),
        None => {
            return map;
        },
    };
    let ghost all = text::texts(entries@);
    assert(all.take(0) =~= Seq::empty());
    for entry in it: entries
        invariant
            it.seq() == entries@,
            all == text::texts(entries@),
            alias_map(map@) == with_entries(Map::empty(), all.take(it.index())),
    {
        assert(all.take(it.index() + 1).drop_last() =~= all.take(it.index()));
        insert_alias(&mut map, Some(entry));
    }
    assert(all.take(all.len() as int) =~= all);
    map
}

/// The alias and the source of an entry that has both, but whose source is not
/// an `http(s)` URL.
pub open spec fn rejection_of(entry: Seq<char>) -> Option<(Seq<char>, Seq<char>)> {
    match text::split_once(entry, '=') {
        None => None,
        Some((alias, target)) => {
            let alias = text::trim(alias);
            let target = text::trim(target);
            if alias.len() > 0 && target.len() > 0 && !is_url(target) {
                Some((alias, target))
            } else {
                None
            }
        },
    }
}

/// The aliases and sources of the entries that are rejected, in order.
pub open spec fn rejections(entries: Seq<Seq<char>>) -> Seq<(Seq<char>, Seq<char>)>
    decreases entries.len(),
{
    if entries.len() == 0 {
        Seq::empty()
    } else {
        let front = rejections(entries.drop_last());
        match rejection_of(entries.last()) {
            Some(pair) => front.push(pair),
            None => front,
        }
    }
}

/// The aliases and sources of the entries of the setting that are rejected.
pub open spec fn rejected(raw: Option<Seq<char>>) -> Seq<(Seq<char>, Seq<char>)> {
    match raw {
        None => Seq::empty(),
        Some(raw) => rejections(entries_of_lines(text::split(raw, '\n'))),
    }
}

/// The alias and the source of an entry that has both, but whose source is not
/// an `http(s)` URL.
fn rejected_entry(entry: &str) -> (r: Option<(String, String)>)
    ensures
        match r {
            Some((alias, target)) => rejection_of(entry@) == Some((alias@, target@)),
            None => rejection_of(entry@) is None,
        },
{
    let chars = text::to_chars(entry);
    match text::split_at_first(chars.as_slice(), '=') {
        Some((alias, target)) => {
            let alias = text::trimmed(alias);
            let target = text::trimmed(target);
            if alias.len() > 0 && target.len() > 0 && !has_url_scheme(target) {
                Some((text::to_text(alias), text::to_text(target)))
            } else {
                None
            }
        },
        None => None,
    }
}

/// Lists the aliases and sources of the entries of the alias setting that are
/// dropped because the source is not an `http(s)` URL: mistakes worth a
/// warning.
pub fn rejected_aliases(raw: Option<&str>) -> (r: Vec<(String, String)>)
    ensures
        query::pair_views(r@) == rejected(text::opt_str(raw)),
{
    let mut list: Vec<(String, String)> = Vec::new();
    assert(query::pair_views(list@) =~= Seq::empty());
    let entries = match raw {
        Some(raw) => read_entries(raw),
        None => {
            return list;
        },
    };
    let ghost all = text::texts(entries@);
    assert(all.take(0) =~= Seq::empty());
    for entry in it: entries
        invariant
            it.seq() == entries@,
            all == text::texts(entries@),
            query::pair_views(list@) == rejections(all.take(it.index())),
    {
        assert(all.take(it.index() + 1).drop_last() =~= all.take(it.index()));
        let ghost before = query::pair_views(list@);
        if let Some((alias, target)) = rejected_entry(entry.as_str()) {
            let ghost pair = (alias@, target@);
            list.push((alias, target));
            assert(query::pair_views(list@) =~= before.push(pair));
        }
    }
    assert(all.take(all.len() as int) =~= all);
    list
}

/// Every alias is a name of the permitted characters, and every archive that an
/// alias names is a remote URL on one line without white space around it: a
/// local path never becomes a source of tiles.
pub proof fn aliases_are_urls(raw: Option<Seq<char>>, alias: Seq<char>)
    requires
        aliases(raw).contains_key(alias),
    ensures
        alias.len() > 0,
        name_chars(alias),
        is_url(aliases(raw)[alias]),
        text::trim(aliases(raw)[alias]) == aliases(raw)[alias],
        !aliases(raw)[alias].contains('\n'),
{
    match raw {
        Some(raw) => {
            let lines = text::split(raw, '\n');
            text::split_characterized(raw, '\n');
            lines_hold_named_entries(lines);
            entries_are_urls(entries_of_lines(lines), alias);
        },
        None => {},
    }
}

/// Whether an entry is one line that begins with a name and `=`.
spec fn named_entry(entry: Seq<char>) -> bool {
    &&& !entry.contains('\n')
    &&& match text::split_once(entry, '=') {
        Some((key, val)) => text::trim(key).len() > 0 && name_chars(text::trim(key)),
        None => false,
    }
}

proof fn lines_hold_named_entries(lines: Seq<Seq<char>>)
    requires
        forall|i: int| 0 <= i < lines.len() ==> !(#[trigger] lines[i]).contains('\n'),
    ensures
        forall|i: int|
            0 <= i < entries_of_lines(lines).len() ==> named_entry(
                #[trigger] entries_of_lines(lines)[i],
            ),
    decreases lines.len(),
{
    if lines.len() > 0 {
        lines_hold_named_entries(lines.drop_last());
        let line = lines.last();
        let frags = text::split(line, ',');
        pieces_hold_no_newline(line);
        groups_are_named_entries(frags);
        let (done, pending) = grouped(frags);
        let before = entries_of_lines(lines.drop_last());
        let entries = entries_of_lines(lines);
        assert(line == lines[lines.len() - 1]);
        assert forall|i: int| 0 <= i < entries.len() implies named_entry(#[trigger] entries[i]) by {
            if i < before.len() {
                assert(entries[i] == before[i]);
            } else if i < before.len() + done.len() {
                assert(entries[i] == done[i - before.len()]);
            } else {
                assert(pending == Some(entries[i]));
            }
        }
    }
}

proof fn pieces_hold_no_newline(line: Seq<char>)
    requires
        !line.contains('\n'),
    ensures
        forall|i: int|
            0 <= i < text::split(line, ',').len() ==> !(#[trigger] text::split(
                line,
                ',',
            )[i]).contains('\n'),
    decreases line.len(),
{
    if line.len() > 0 {
        let front = line.drop_last();
        assert(!front.contains('\n')) by {
            if front.contains('\n') {
                let i = choose|i: int| 0 <= i < front.len() && front[i] == '\n';
                assert(line[i] == '\n');
            }
        }
        pieces_hold_no_newline(front);
        text::split_characterized(front, ',');
        let pieces = text::split(line, ',');
        assert forall|i: int| 0 <= i < pieces.len() implies !(#[trigger] pieces[i]).contains(
            '\n',
        ) by {
            let before = text::split(front, ',');
            if i < before.len() - 1 {
                assert(pieces[i] == before[i]);
            } else if line.last() == ',' && i < before.len() {
                assert(pieces[i] == before[i]);
            } else if line.last() != ',' {
                let end = before.last();
                assert(end == before[before.len() - 1]);
                assert(pieces[i] == end.push(line.last()));
                assert(line[line.len() - 1] != '\n');
                if pieces[i].contains('\n') {
                    let k = choose|k: int| 0 <= k < pieces[i].len() && pieces[i][k] == '\n';
                    assert(end[k] == '\n');
                }
            }
        }
    }
}

proof fn groups_are_named_entries(frags: Seq<Seq<char>>)
    requires
        forall|i: int| 0 <= i < frags.len() ==> !(#[trigger] frags[i]).contains('\n'),
    ensures
        forall|i: int|
            0 <= i < grouped(frags).0.len() ==> named_entry(#[trigger] grouped(frags).0[i]),
        grouped(frags).1 matches Some(p) ==> named_entry(p),
    decreases frags.len(),
{
    if frags.len() > 0 {
        groups_are_named_entries(frags.drop_last());
        let (done, pending) = grouped(frags.drop_last());
        let frag = frags.last();
        assert(frag == frags[frags.len() - 1]);
        if !begins_alias(frag, pending) && text::trim(frag).len() > 0 {
            if let Some(p) = pending {
                longer_named_entry(p, frag);
            }
        }
    }
}

proof fn longer_named_entry(p: Seq<char>, frag: Seq<char>)
    requires
        named_entry(p),
        !frag.contains('\n'),
    ensures
        named_entry(p.push(',') + frag),
{
    let e = p.push(',') + frag;
    let n = text::first(p, '=');
    text::first_bounds(p, '=');
    assert forall|j: int| 0 <= j < n implies e[j] != '=' by {
        assert(e[j] == p[j]);
    }
    text::first_is(e, '=', n);
    assert(e.take(n) =~= p.take(n));
    if e.contains('\n') {
        let k = choose|k: int| 0 <= k < e.len() && e[k] == '\n';
        if k < p.len() {
            assert(p[k] == '\n');
        } else {
            assert(frag[k - p.len() - 1] == '\n');
        }
    }
}

proof fn entries_are_urls(entries: Seq<Seq<char>>, alias: Seq<char>)
    requires
        forall|i: int| 0 <= i < entries.len() ==> named_entry(#[trigger] entries[i]),
        with_entries(Map::empty(), entries).contains_key(alias),
    ensures
        alias.len() > 0,
        name_chars(alias),
        is_url(with_entries(Map::empty(), entries)[alias]),
        text::trim(with_entries(Map::empty(), entries)[alias]) == with_entries(
            Map::empty(),
            entries,
        )[alias],
        !with_entries(Map::empty(), entries)[alias].contains('\n'),
    decreases entries.len(),
{
    if entries.len() > 0 {
        let front = with_entries(Map::empty(), entries.drop_last());
        if front.contains_key(alias) {
            entries_are_urls(entries.drop_last(), alias);
        }
        let entry = entries.last();
        assert(entry == entries[entries.len() - 1]);
        if let Some((key, val)) = text::split_once(entry, '=') {
            text::first_bounds(entry, '=');
            text::trim_characterized(val);
            let v = text::trim(val);
            assert(text::trim(v) == v);
            let (i, j) = choose|i: int, j: int|
                0 <= i <= j <= val.len() && v == val.subrange(i, j) && (forall|k: int|
                    0 <= k < i || j <= k < val.len() ==> text::white_space(#[trigger] val[k]));
            if v.contains('\n') {
                let k = choose|k: int| 0 <= k < v.len() && v[k] == '\n';
                assert(entry[text::first(entry, '=') + 1 + i + k] == '\n');
            }
        }
    }
}

/// A newline parts the setting: the aliases of two parts with a newline
/// between them are those of the first, overridden by those of the second.
pub proof fn newline_parts_aliases(a: Seq<char>, b: Seq<char>)
    ensures
        aliases(Some(a.push('\n') + b)) == aliases(Some(a)).union_prefer_right(aliases(Some(b))),
{
    let (la, lb) = (text::split(a, '\n'), text::split(b, '\n'));
    text::split_concat(a, b, '\n');
    entries_of_lines_concat(la, lb);
    with_entries_split(Map::empty(), entries_of_lines(la), entries_of_lines(lb));
    with_entries_over(aliases(Some(a)), entries_of_lines(lb));
}

proof fn entries_of_lines_concat(a: Seq<Seq<char>>, b: Seq<Seq<char>>)
    ensures
        entries_of_lines(a + b) == entries_of_lines(a) + entries_of_lines(b),
    decreases b.len(),
{
    if b.len() == 0 {
        assert(a + b =~= a);
        assert(entries_of_lines(a) + entries_of_lines(b) =~= entries_of_lines(a));
    } else {
        assert((a + b).drop_last() =~= a + b.drop_last());
        entries_of_lines_concat(a, b.drop_last());
        assert(entries_of_lines(a + b) =~= entries_of_lines(a) + entries_of_lines(b));
    }
}

proof fn with_entries_over(map: Map<Seq<char>, Seq<char>>, entries: Seq<Seq<char>>)
    ensures
        with_entries(map, entries) == map.union_prefer_right(with_entries(Map::empty(), entries)),
    decreases entries.len(),
{
    if entries.len() > 0 {
        with_entries_over(map, entries.drop_last());
    }
    assert(with_entries(map, entries) =~= map.union_prefer_right(
        with_entries(Map::empty(), entries),
    ));
}

/// Whether a fragment cannot begin an entry of its own, so that after a query
/// string it belongs to it.
pub open spec fn continues_value(frag: Seq<char>) -> bool {
    &&& text::trim(frag).len() > 0
    &&& match text::split_once(frag, '=') {
        None => true,
        Some((key, val)) => text::trim(key).len() == 0 || !name_chars(text::trim(key))
            || !source_like(text::trim(val)),
    }
}

/// An entry `alias=url` names that URL and nothing else. The URL may hold
/// commas in its query string, as long as what follows them does not look like
/// an entry of its own.
pub proof fn alias_reads_back(alias: Seq<char>, url: Seq<char>)
    requires
        alias.len() > 0,
        name_chars(alias),
        is_url(url),
        text::trim(url) == url,
        !url.contains('\n'),
        url.contains(',') ==> text::split(url, ',')[0].contains('?'),
        forall|k: int|
            1 <= k < text::split(url, ',').len() ==> continues_value(
                #[trigger] text::split(url, ',')[k],
            ),
    ensures
        aliases(Some(alias.push('=') + url)) == Map::<Seq<char>, Seq<char>>::empty().insert(
            alias,
            url,
        ),
{
    let raw = alias.push('=') + url;
    let key = alias.push('=');
    assert forall|i: int| 0 <= i < key.len() implies key[i] != ',' && key[i] != '\n' by {
        if i < alias.len() {
            assert(name_char(alias[i]));
        }
    }
    assert(!alias.contains('=')) by {
        if alias.contains('=') {
            let i = choose|i: int| 0 <= i < alias.len() && alias[i] == '=';
            assert(name_char(alias[i]));
        }
    }
    assert(!raw.contains('\n')) by {
        if raw.contains('\n') {
            let i = choose|i: int| 0 <= i < raw.len() && raw[i] == '\n';
            if i >= key.len() {
                assert(url[i - key.len()] == '\n');
            } else {
                assert(key[i] == raw[i]);
            }
        }
    }
    text::split_whole(raw, '\n');
    assert(!key.contains(',')) by {
        if key.contains(',') {
            let i = choose|i: int| 0 <= i < key.len() && key[i] == ',';
            assert(key[i] != ',');
        }
    }
    text::split_prefix(key, url, ',');
    text::split_characterized(url, ',');
    text::split_characterized(raw, ',');
    let parts = text::split(url, ',');
    let frags = text::split(raw, ',');
    assert(frags[0] == key + parts[0]);
    assert(name_char(alias[0]) && name_char(alias[alias.len() - 1]));
    assert(text::trim(alias) == alias);
    text::split_once_is(alias, '=', parts[0]);
    text::split_once_is(alias, '=', url);
    assert(begins_alias(frags[0], None));
    if parts.len() > 1 {
        assert(url.contains(',')) by {
            if !url.contains(',') {
                text::split_whole(url, ',');
            }
        }
        let i = choose|i: int| 0 <= i < parts[0].len() && parts[0][i] == '?';
        assert(frags[0][key.len() + i] == '?');
        assert(frags[0].contains('?'));
    }
    assert forall|k: int| 1 <= k < frags.len() implies continues_value(#[trigger] frags[k]) by {
        assert(frags[k] == parts[k]);
    }
    grouped_whole(frags, frags.len() as int);
    assert(frags.take(frags.len() as int) =~= frags);
    assert(line_entries(raw) =~= seq![raw]);
    assert(seq![raw].drop_last() =~= Seq::empty());
    reveal_with_fuel(entries_of_lines, 2);
    assert(entries_of_lines(seq![raw]) =~= seq![raw]);
    reveal_with_fuel(with_entries, 2);
    assert(url.len() > 0) by {
        reveal_strlit("http://");
        reveal_strlit("https://");
    }
}

/// Fragments that continue the value of the first one make one entry.
proof fn grouped_whole(frags: Seq<Seq<char>>, n: int)
    requires
        1 <= n <= frags.len(),
        begins_alias(frags[0], None),
        frags.len() > 1 ==> frags[0].contains('?'),
        forall|k: int| 1 <= k < frags.len() ==> continues_value(#[trigger] frags[k]),
    ensures
        grouped(frags.take(n)).0 =~= Seq::empty(),
        grouped(frags.take(n)).1 == Some(text::join(frags.take(n), ',')),
        n < frags.len() ==> text::join(frags.take(n), ',').contains('?'),
    decreases n,
{
    let some = frags.take(n);
    if n == 1 {
        assert(some.drop_last() =~= Seq::empty());
        assert(grouped(some.drop_last()) == (Seq::<Seq<char>>::empty(), None::<Seq<char>>));
    } else {
        grouped_whole(frags, n - 1);
        assert(some.drop_last() =~= frags.take(n - 1));
        let p = text::join(frags.take(n - 1), ',');
        assert(continues_value(frags[n - 1]));
        assert(!begins_alias(some.last(), Some(p)));
        let joined = p.push(',') + some.last();
        assert(text::join(some, ',') == joined);
        let i = choose|i: int| 0 <= i < p.len() && p[i] == '?';
        assert(joined[i] == '?');
    }
}

/// The `Cache-Control` of tile responses that applies without a setting.
pub open spec fn default_cache_control() -> Seq<char> {
    "public, max-age=86400"@
}

/// The `Cache-Control` for tile responses: the setting, or the default.
pub fn tiles_cache_control<'a>(setting: Option<&'a str>) -> (r: &'a str)
    ensures
        r@ == match setting {
            Some(s) => s@,
            None => default_cache_control(),
        },
{
    match setting {
        Some(s) => s,
        None => "public, max-age=86400",
    }
}

/// The origins that may use the service across sites: `None` stands for any,
/// which is what no setting, a blank one and `*` mean. Otherwise the setting
/// is a comma-separated list.
pub open spec fn allowed_origins(setting: Option<Seq<char>>) -> Option<Seq<Seq<char>>> {
    match setting {
        None => None,
        Some(v) => if text::trim(v).len() == 0 || text::trim(v) == "*"@ {
            None
        } else {
            Some(text::split(v, ',').map_values(|o: Seq<char>| text::trim(o)))
        },
    }
}

/// Reads the list of allowed origins.
pub fn cors_origins(setting: Option<&str>) -> (r: Option<Vec<String>>)
    ensures
        match r {
            Some(list) => allowed_origins(text::opt_str(setting)) == Some(text::texts(list@)),
            None => allowed_origins(text::opt_str(setting)) is None,
        },
{
    let v = match setting {
        Some(v) => v,
        None => {
            return None;
        },
    };
    let chars = text::to_chars(v);
    let whole = text::trimmed(chars.as_slice());
    if whole.len() == 0 || text::is_text(whole, "*") {
        return None;
    }
    let pieces = text::split_at_each(chars.as_slice(), ',');
    let ghost all = text::split(v@, ',').map_values(|o: Seq<char>| text::trim(o));
    let mut list: Vec<String> = Vec::new();
    let mut i: usize = 0;
    while i < pieces.len()
        invariant
            i <= pieces@.len() == all.len(),
            text::views(pieces@) == text::split(v@, ','),
            all == text::split(v@, ',').map_values(|o: Seq<char>| text::trim(o)),
            text::texts(list@) == all.take(i as int),
        decreases pieces@.len() - i,
    {
        let ghost before = text::texts(list@);
        assert(text::split(v@, ',')[i as int] == pieces@[i as int]@);
        let origin = text::to_text(text::trimmed(pieces[i]));
        list.push(origin);
        assert(text::texts(list@) =~= before.push(origin@));
        assert(all.take(i + 1) =~= all.take(i as int).push(all[i as int]));
        i += 1;
    }
    assert(all.take(i as int) =~= all);
    Some(list)
}

/// The port to listen on: the setting where it is a port number, else 3000.
pub open spec fn port(setting: Option<Seq<char>>) -> nat {
    match setting {
        Some(s) => match number::unsigned(s, u16::MAX as nat) {
            Ok(v) => v,
            Err(_) => 3000,
        },
        None => 3000,
    }
}

/// Reads the port to listen on.
pub fn listen_port(setting: Option<&str>) -> (r: u16)
    ensures
        r == port(text::opt_str(setting)),
{
    match setting {
        Some(s) => {
            let chars = text::to_chars(s);
            match number::parse_unsigned(chars.as_slice(), u16::MAX as u64) {
                Ok(v) => v as u16,
                Err(_) => 3000,
            }
        },
        None => 3000,
    }
}

/// How long tile responses may be kept, as read from the setting once: what the
/// setting becomes afterwards does not matter.
pub struct TileCaching {
    value: String,
}

impl View for TileCaching {
    type V = Seq<char>;

    closed spec fn view(&self) -> Seq<char> {
        self.value@
    }
}

impl TileCaching {
    /// Reads the setting, or takes the default.
    pub fn new(setting: Option<&str>) -> (r: TileCaching)
        ensures
            r@ == match setting {
                Some(s) => s@,
                None => default_cache_control(),
            },
    {
        TileCaching { value: tiles_cache_control(setting).to_owned() }
    }

    /// The `Cache-Control` for tile responses, the same at every call.
    pub fn header(&self) -> (r: &str)
        ensures
            r@ == self@,
    {
        self.value.as_str()
    }
}

/// Whether a setting turns something on: it is `true`, in any case, or `1`.
pub open spec fn turned_on(setting: Option<Seq<char>>) -> bool {
    match setting {
        Some(s) => text::eq_ignore_case(text::trim(s), "true"@) || text::trim(s) == "1"@,
        None => false,
    }
}

/// Tests whether a setting turns something on.
pub fn is_turned_on(setting: Option<&str>) -> (r: bool)
    ensures
        r == turned_on(text::opt_str(setting)),
{
    match setting {
        Some(s) => {
            let chars = text::to_chars(s);
            let value = text::trimmed(chars.as_slice());
            text::is_text_ignoring_case(value, "true") || text::is_text(value, "1")
        },
        None => false,
    }
}

// ---------------------------------------------------------------------------
// What holds of every setting
// ---------------------------------------------------------------------------

/// A URL is a text with `http://` or `https://` in front, and no other.
pub proof fn urls_have_a_scheme(s: Seq<char>)
    ensures
        is_url("http://"@ + s),
        is_url("https://"@ + s),
        is_url(s) ==> s == "http://"@ + s.skip(7) || s == "https://"@ + s.skip(8),
{
    reveal_strlit("http://");
    reveal_strlit("https://");
    let (a, b) = ("http://"@, "https://"@);
    text::affixes(s, Seq::empty(), a, s);
    text::affixes(s, Seq::empty(), b, s);
}

/// An entry `alias=target` names its target where that is a URL, and is rejected
/// where it is not; white space around either part does not count, and an entry
/// that lacks a part does neither.
pub proof fn entry_names_or_is_rejected(alias: Seq<char>, target: Seq<char>)
    requires
        !alias.contains('='),
    ensures
        ({
            let (a, t) = (text::trim(alias), text::trim(target));
            let e = alias.push('=') + target;
            &&& a.len() > 0 && is_url(t) ==> alias_of(e) == Some((a, t)) && rejection_of(e) is None
            &&& a.len() > 0 && t.len() > 0 && !is_url(t) ==> alias_of(e) is None && rejection_of(e)
                == Some((a, t))
            &&& a.len() == 0 || t.len() == 0 ==> alias_of(e) is None && rejection_of(e) is None
        }),
        alias_of(alias) is None,
        rejection_of(alias) is None,
{
    text::split_once_is(alias, '=', target);
    text::split_once_parts(alias, '=');
    reveal_strlit("http://");
    reveal_strlit("https://");
}

/// An entry adds its alias and changes no other; one that names none changes
/// nothing.
pub proof fn entry_adds_its_alias(map: Map<Seq<char>, Seq<char>>, entry: Seq<char>, other: Seq<char>)
    ensures
        match alias_of(entry) {
            Some((alias, target)) => {
                let r = with_entry(map, entry);
                &&& r.contains_key(alias) && r[alias] == target
                &&& other != alias ==> r.contains_key(other) == map.contains_key(other) && r[other]
                    == map[other]
            },
            None => with_entry(map, entry) == map,
        },
{
}

/// Entries that a comma parts are read each on its own: two with URLs of their
/// own are two aliases, the second of which wins where they are the same.
pub proof fn comma_parts_entries(a: Seq<char>, x: Seq<char>, b: Seq<char>, y: Seq<char>)
    requires
        a.len() > 0 && name_chars(a),
        b.len() > 0 && name_chars(b),
        is_url(x) && text::trim(x) == x && !x.contains(',') && !x.contains('\n'),
        is_url(y) && text::trim(y) == y && !y.contains(',') && !y.contains('\n'),
    ensures
        aliases(Some((a.push('=') + x).push(',') + (b.push('=') + y))) == Map::<
            Seq<char>,
            Seq<char>,
        >::empty().insert(a, x).insert(b, y),
{
    let (e, f) = (a.push('=') + x, b.push('=') + y);
    let raw = e.push(',') + f;
    plain_entry(a, x);
    plain_entry(b, y);
    text::split_whole(e, ',');
    text::split_whole(f, ',');
    text::split_concat(e, f, ',');
    if raw.contains('\n') {
        let k = choose|k: int| 0 <= k < raw.len() && raw[k] == '\n';
        if k < e.len() {
            assert(e[k] == '\n');
        } else {
            assert(f[k - e.len() - 1] == '\n');
        }
    }
    text::split_whole(raw, '\n');
    let frags = text::split(raw, ',');
    assert(frags =~= seq![e, f]);
    assert(frags.drop_last() =~= seq![e]);
    assert(seq![e].drop_last() =~= Seq::empty());
    let none = Seq::<Seq<char>>::empty();
    assert(grouped(none) == (none, None::<Seq<char>>));
    assert(grouped(seq![e]).1 == Some(e));
    assert(grouped(seq![e]).0 =~= none);
    assert(grouped(frags).1 == Some(f));
    assert(grouped(frags).0 =~= seq![e]);
    assert(line_entries(raw) =~= seq![e, f]);
    assert(seq![raw].drop_last() =~= none);
    reveal_with_fuel(entries_of_lines, 2);
    assert(entries_of_lines(seq![raw]) =~= seq![e, f]);
    let entries = seq![e, f];
    assert(entries.drop_last() =~= seq![e]);
    let empty = Map::<Seq<char>, Seq<char>>::empty();
    assert(with_entries(empty, none) == empty);
    assert(with_entries(empty, seq![e]) == empty.insert(a, x));
    assert(with_entries(empty, entries) == empty.insert(a, x).insert(b, y));
}

proof fn plain_entry(alias: Seq<char>, url: Seq<char>)
    requires
        alias.len() > 0,
        name_chars(alias),
        is_url(url),
        text::trim(url) == url,
        !url.contains(','),
        !url.contains('\n'),
    ensures
        !(alias.push('=') + url).contains(','),
        !(alias.push('=') + url).contains('\n'),
        forall|pending: Option<Seq<char>>| begins_alias(alias.push('=') + url, pending),
        alias_of(alias.push('=') + url) == Some((alias, url)),
{
    let e = alias.push('=') + url;
    if alias.contains('=') {
        let i = choose|i: int| 0 <= i < alias.len() && alias[i] == '=';
        assert(name_char(alias[i]));
    }
    if e.contains(',') {
        let i = choose|i: int| 0 <= i < e.len() && e[i] == ',';
        if i < alias.len() {
            assert(name_char(alias[i]));
        } else {
            assert(url[i - alias.len() - 1] == ',');
        }
    }
    if e.contains('\n') {
        let i = choose|i: int| 0 <= i < e.len() && e[i] == '\n';
        if i < alias.len() {
            assert(name_char(alias[i]));
        } else {
            assert(url[i - alias.len() - 1] == '\n');
        }
    }
    assert(name_char(alias[0]) && name_char(alias[alias.len() - 1]));
    assert(text::trim(alias) == alias);
    text::split_once_is(alias, '=', url);
    reveal_strlit("http://");
    reveal_strlit("https://");
}

/// A fragment begins an entry where a name stands before its first `=`. Behind
/// an entry with a query string, which may hold commas, what follows the `=`
/// must look like a source as well.
pub proof fn fragment_begins_an_entry(key: Seq<char>, val: Seq<char>, pending: Seq<char>)
    requires
        !key.contains('='),
    ensures
        ({
            let named = text::trim(key).len() > 0 && name_chars(text::trim(key));
            let frag = key.push('=') + val;
            &&& begins_alias(frag, None) <==> named
            &&& !pending.contains('?') ==> (begins_alias(frag, Some(pending)) <==> named)
            &&& pending.contains('?') ==> (begins_alias(frag, Some(pending)) <==> named
                && source_like(text::trim(val)))
        }),
        !begins_alias(key, None),
        !begins_alias(key, Some(pending)),
{
    text::split_once_is(key, '=', val);
    text::split_once_parts(key, '=');
}

/// Every entry that is rejected is listed, in its place, and no other is.
pub proof fn every_rejection_is_listed(a: Seq<Seq<char>>, entry: Seq<char>, b: Seq<Seq<char>>)
    ensures
        rejections(Seq::empty()) == Seq::<(Seq<char>, Seq<char>)>::empty(),
        rejections(a.push(entry) + b) == match rejection_of(entry) {
            Some(pair) => rejections(a).push(pair) + rejections(b),
            None => rejections(a) + rejections(b),
        },
    decreases b.len(),
{
    let all = a.push(entry) + b;
    if b.len() == 0 {
        assert(all =~= a.push(entry));
        assert(all.drop_last() =~= a);
        assert(rejections(b) =~= Seq::empty());
        assert(rejections(a) + rejections(b) =~= rejections(a));
        if let Some(pair) = rejection_of(entry) {
            assert(rejections(a).push(pair) + rejections(b) =~= rejections(a).push(pair));
        }
    } else {
        assert(all.drop_last() =~= a.push(entry) + b.drop_last());
        assert(all.last() == b.last());
        every_rejection_is_listed(a, entry, b.drop_last());
        let front = match rejection_of(entry) {
            Some(pair) => rejections(a).push(pair),
            None => rejections(a),
        };
        assert(rejections(all) =~= front + rejections(b));
    }
}

/// The rejected entries of two settings on two lines are those of the first and
/// then those of the second.
pub proof fn newline_parts_rejections(a: Seq<char>, b: Seq<char>)
    ensures
        rejected(Some(a.push('\n') + b)) == rejected(Some(a)) + rejected(Some(b)),
        rejected(None) == Seq::<(Seq<char>, Seq<char>)>::empty(),
{
    let (la, lb) = (text::split(a, '\n'), text::split(b, '\n'));
    text::split_concat(a, b, '\n');
    entries_of_lines_concat(la, lb);
    rejections_split(entries_of_lines(la), entries_of_lines(lb));
}

proof fn rejections_split(a: Seq<Seq<char>>, b: Seq<Seq<char>>)
    ensures
        rejections(a + b) == rejections(a) + rejections(b),
    decreases b.len(),
{
    if b.len() == 0 {
        assert(a + b =~= a);
        assert(rejections(a) + rejections(b) =~= rejections(a));
    } else {
        assert((a + b).drop_last() =~= a + b.drop_last());
        rejections_split(a, b.drop_last());
        assert(rejections(a + b) =~= rejections(a) + rejections(b));
    }
}

/// Every origin between the commas is allowed, in its place, white space around
/// it aside. Any origin is where the setting is absent, blank or `*`.
pub proof fn every_origin_is_allowed(v: Seq<char>, i: int)
    ensures
        allowed_origins(None) is None,
        allowed_origins(Some(v)) is None <==> text::trim(v).len() == 0 || text::trim(v) == "*"@,
        allowed_origins(Some(v)) matches Some(list) ==> {
            &&& list.len() == text::split(v, ',').len()
            &&& 0 <= i < list.len() ==> list[i] == text::trim(text::split(v, ',')[i])
        },
{
}

/// The port is the number that is written, and 3000 where none is that fits.
pub proof fn port_reads_back(n: u16, s: Seq<char>)
    ensures
        port(None) == 3000,
        port(Some(number::decimal(n as nat))) == n,
        number::unsigned(s, 65535) is Err ==> port(Some(s)) == 3000,
{
    number::decimal_reads_back(n as nat, u16::MAX as nat);
}

/// A setting turns something on exactly where it reads `1`, or `true` in any
/// case, white space around it aside.
pub proof fn settings_that_turn_on(s: Seq<char>)
    ensures
        !turned_on(None),
        turned_on(Some(s)) <==> text::eq_ignore_case(text::trim(s), "true"@) || text::trim(s)
            == "1"@,
{
}

/// What looks like a source is a URL, a path from the root or from here, or an
/// archive by its extension.
pub proof fn sources_look_like_one(s: Seq<char>)
    ensures
        source_like("/"@ + s),
        source_like("."@ + s),
        source_like(s + ".pmtiles"@),
        is_url(s) ==> source_like(s),
        source_like(s) ==> is_url(s) || s[0] == '/' || s[0] == '.' || s == s.take(s.len() - 8)
            + ".pmtiles"@,
{
    reveal_strlit("/");
    reveal_strlit(".");
    reveal_strlit(".pmtiles");
    text::affixes(s, s, "/"@, s);
    text::affixes(s, s, "."@, s);
    text::affixes(s, s, ".pmtiles"@, s);
    if text::starts_with(s, "/"@) {
        assert(s[0] == s.take(1)[0]);
    }
    if text::starts_with(s, "."@) {
        assert(s[0] == s.take(1)[0]);
    }
}

} // verus!
