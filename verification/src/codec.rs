//! The text form of the two persisted records. A manifest file opens with a
//! comment telling the reader not to edit it, then a `[requirements]`
//! section and a `[packages]` section; a ledger file holds a `[packages]`
//! section alone. Each section lists `name = "value"` lines. Reading a
//! rendered record recovers exactly the record that was written, and a
//! record that exists but does not parse is reported as an error, never
//! silently treated as absent or empty.

use vstd::prelude::*;

use crate::error::Error;
use crate::manifest::LocalPackages;
use crate::manifest::Manifest;
use crate::table::Table;
use crate::table::lemma_map_of;
use crate::table::lemma_views_has;
use crate::table::seq_has_name;
use crate::table::views_of;
use crate::table::valid_entries;
use crate::table::distinct_names;
use crate::text::str_range_eq;
use crate::text::check_name;
use crate::text::check_value;
use crate::text::valid_name;
use crate::text::valid_value;

verus! {

/// The comment a manifest file opens with, sans terminator.
pub open spec fn header_body() -> Seq<char> {
    "# Kept up to date by the package manager; do not edit by hand."@
}

/// One rendered entry: `name = "value"`, sans terminator.
pub open spec fn entry_line(name: Seq<char>, value: Seq<char>) -> Seq<char> {
    name + " = \""@ + value + "\""@
}

/// The rendered, newline-terminated entries of `s` from position `i` on.
pub open spec fn entries_text_from(s: Seq<(String, String)>, i: int) -> Seq<char>
    decreases s.len() - i,
{
    if i < 0 || i >= s.len() {
        Seq::empty()
    } else {
        entry_line(s[i].0@, s[i].1@) + "\n"@ + entries_text_from(s, i + 1)
    }
}

/// The rendered entries of a whole table.
pub open spec fn entries_text(s: Seq<(String, String)>) -> Seq<char> {
    entries_text_from(s, 0)
}

/// The full text of a manifest file.
pub open spec fn manifest_text(m: Manifest) -> Seq<char> {
    header_body() + "\n"@ + "[requirements]"@ + "\n"@ + entries_text(m.requirements.entries@)
        + "[packages]"@ + "\n"@ + entries_text(m.packages.entries@)
}

/// The full text of a ledger file.
pub open spec fn ledger_text(l: LocalPackages) -> Seq<char> {
    "[packages]"@ + "\n"@ + entries_text(l.packages.entries@)
}

/// The position of the first `c` at or after `pos`, or the length of `s`.
pub open spec fn find_from(s: Seq<char>, pos: int, c: char) -> int
    decreases s.len() - pos,
{
    if pos < 0 || pos >= s.len() {
        s.len() as int
    } else if s[pos] == c {
        pos
    } else {
        find_from(s, pos + 1, c)
    }
}

/// What `find_from` finds: a position in range, holding `c` unless it is
/// the end, with no `c` before it.
pub proof fn lemma_find_from(s: Seq<char>, pos: int, c: char)
    requires
        0 <= pos <= s.len(),
    ensures
        pos <= find_from(s, pos, c) <= s.len(),
        find_from(s, pos, c) < s.len() ==> s[find_from(s, pos, c)] == c,
        forall|k: int| pos <= k < find_from(s, pos, c) ==> s[k] != c,
    decreases s.len() - pos,
{
    if pos < s.len() && s[pos] != c {
        lemma_find_from(s, pos + 1, c);
        assert forall|k: int| pos <= k < find_from(s, pos, c) implies s[k] != c by {
            if k > pos {
                assert(find_from(s, pos, c) == find_from(s, pos + 1, c));
            }
        }
    }
}

/// Where the occurrence is known, `find_from` lands exactly on it.
pub proof fn lemma_find_from_at(s: Seq<char>, pos: int, c: char, j: int)
    requires
        0 <= pos <= j <= s.len(),
        forall|k: int| pos <= k < j ==> s[k] != c,
        j == s.len() || s[j] == c,
    ensures
        find_from(s, pos, c) == j,
    decreases j - pos,
{
    if pos < j {
        lemma_find_from_at(s, pos + 1, c, j);
    }
}

/// A line the reader passes over: blank, or a comment.
pub open spec fn skip_line(l: Seq<char>) -> bool {
    l.len() == 0 || l[0] == '#'
}

/// What one entry line `name = "value"` means, if it is well shaped: the
/// name runs to the first space, the value sits between the quotes, and
/// both are valid.
pub open spec fn parse_entry(l: Seq<char>) -> Option<(Seq<char>, Seq<char>)> {
    let k = find_from(l, 0, ' ');
    if k + 5 <= l.len() && l[k + 1] == '=' && l[k + 2] == ' ' && l[k + 3] == '"' && l[l.len() - 1]
        == '"' && valid_name(l.subrange(0, k)) && valid_value(l.subrange(k + 4, l.len() - 1)) {
        Some((l.subrange(0, k), l.subrange(k + 4, l.len() - 1)))
    } else {
        None
    }
}

/// What a manifest text means from position `pos` on, reading line by line.
/// `sec` is 0 before `[requirements]`, 1 inside it, 2 inside `[packages]`;
/// `req` and `pkg` are the entries read so far. A malformed line, an entry
/// outside a section, a repeated name or a missing section means the text
/// has no meaning at all.
pub open spec fn parse_manifest_from(
    s: Seq<char>,
    pos: int,
    sec: int,
    req: Seq<(Seq<char>, Seq<char>)>,
    pkg: Seq<(Seq<char>, Seq<char>)>,
) -> Option<(Seq<(Seq<char>, Seq<char>)>, Seq<(Seq<char>, Seq<char>)>)>
    decreases s.len() - pos
    via parse_manifest_from_dec
{
    if pos < 0 || pos >= s.len() {
        if sec == 2 {
            Some((req, pkg))
        } else {
            None
        }
    } else {
        let j = find_from(s, pos, '\n');
        let l = s.subrange(pos, j);
        let nxt = if j >= s.len() {
            j
        } else {
            j + 1
        };
        if skip_line(l) {
            parse_manifest_from(s, nxt, sec, req, pkg)
        } else if l == "[requirements]"@ {
            if sec == 0 {
                parse_manifest_from(s, nxt, 1, req, pkg)
            } else {
                None
            }
        } else if l == "[packages]"@ {
            if sec == 1 {
                parse_manifest_from(s, nxt, 2, req, pkg)
            } else {
                None
            }
        } else {
            match parse_entry(l) {
                Option::None => None,
                Option::Some((nm, vl)) => {
                    if sec == 1 {
                        if seq_has_name(req, nm) {
                            None
                        } else {
                            parse_manifest_from(s, nxt, 1, req.push((nm, vl)), pkg)
                        }
                    } else if sec == 2 {
                        if seq_has_name(pkg, nm) {
                            None
                        } else {
                            parse_manifest_from(s, nxt, 2, req, pkg.push((nm, vl)))
                        }
                    } else {
                        None
                    }
                },
            }
        }
    }
}

#[via_fn]
proof fn parse_manifest_from_dec(
    s: Seq<char>,
    pos: int,
    sec: int,
    req: Seq<(Seq<char>, Seq<char>)>,
    pkg: Seq<(Seq<char>, Seq<char>)>,
) {
    if 0 <= pos < s.len() {
        lemma_find_from(s, pos, '\n');
    }
}

/// What a ledger text means from position `pos` on. `sec` is 0 before
/// `[packages]`, 1 inside it.
pub open spec fn parse_ledger_from(
    s: Seq<char>,
    pos: int,
    sec: int,
    pkg: Seq<(Seq<char>, Seq<char>)>,
) -> Option<Seq<(Seq<char>, Seq<char>)>>
    decreases s.len() - pos
    via parse_ledger_from_dec
{
    if pos < 0 || pos >= s.len() {
        if sec == 1 {
            Some(pkg)
        } else {
            None
        }
    } else {
        let j = find_from(s, pos, '\n');
        let l = s.subrange(pos, j);
        let nxt = if j >= s.len() {
            j
        } else {
            j + 1
        };
        if skip_line(l) {
            parse_ledger_from(s, nxt, sec, pkg)
        } else if l == "[packages]"@ {
            if sec == 0 {
                parse_ledger_from(s, nxt, 1, pkg)
            } else {
                None
            }
        } else {
            match parse_entry(l) {
                Option::None => None,
                Option::Some((nm, vl)) => {
                    if sec == 1 {
                        if seq_has_name(pkg, nm) {
                            None
                        } else {
                            parse_ledger_from(s, nxt, 1, pkg.push((nm, vl)))
                        }
                    } else {
                        None
                    }
                },
            }
        }
    }
}

#[via_fn]
proof fn parse_ledger_from_dec(s: Seq<char>, pos: int, sec: int, pkg: Seq<(Seq<char>, Seq<char>)>) {
    if 0 <= pos < s.len() {
        lemma_find_from(s, pos, '\n');
    }
}

/// Appends the rendered entries of `t` to `out`.
fn append_entries(out: &mut String, t: &Table)
    ensures
        final(out)@ == old(out)@ + entries_text(t.entries@),
{
    let ghost e = t.entries@;
    let ghost base = out@;
    let n = t.entries.len();
    let mut i: usize = 0;
    while i < n
        invariant
            i <= n,
            n == e.len(),
            e == t.entries@,
            out@ + entries_text_from(e, i as int) == base + entries_text_from(e, 0),
        decreases n - i,
    {
        let ghost pre = out@;
        out.append(t.entries[i].0.as_str());
        out.append(" = \"");
        out.append(t.entries[i].1.as_str());
        out.append("\"");
        out.append("\n");
        proof {
            assert(out@ =~= pre + (entry_line(e[i as int].0@, e[i as int].1@) + "\n"@));
            assert(out@ + entries_text_from(e, i as int + 1) =~= pre + entries_text_from(
                e,
                i as int,
            ));
        }
        i += 1;
    }
    proof {
        assert(out@ + entries_text_from(e, n as int) =~= out@);
        assert(out@ =~= base + entries_text(e));
    }
}

/// Serializes a manifest: the do-not-edit header, the requirement snapshot,
/// the selected packages.
pub fn render_manifest(m: &Manifest) -> (r: String)
    ensures
        r@ == manifest_text(*m),
{
    let mut out = String::new();
    out.append("# Kept up to date by the package manager; do not edit by hand.");
    out.append("\n");
    out.append("[requirements]");
    out.append("\n");
    append_entries(&mut out, &m.requirements);
    out.append("[packages]");
    out.append("\n");
    append_entries(&mut out, &m.packages);
    proof {
        assert(out@ =~= manifest_text(*m));
    }
    out
}

/// Serializes a ledger: just the packages unpacked now.
pub fn render_ledger(l: &LocalPackages) -> (r: String)
    ensures
        r@ == ledger_text(*l),
{
    let mut out = String::new();
    out.append("[packages]");
    out.append("\n");
    append_entries(&mut out, &l.packages);
    proof {
        assert(out@ =~= ledger_text(*l));
    }
    out
}

/// The end of the line that starts at `pos`: the first newline at or after
/// it, or the end of the text.
fn find_newline(s: &str, pos: usize, n: usize) -> (j: usize)
    requires
        pos <= n,
        n == s@.len(),
    ensures
        j == find_from(s@, pos as int, '\n'),
        pos <= j <= n,
{
    let mut j: usize = pos;
    while j < n && s.get_char(j) != '\n'
        invariant
            pos <= j <= n,
            n == s@.len(),
            forall|k: int| pos <= k < j ==> s@[k] != '\n',
        decreases n - j,
    {
        j += 1;
    }
    proof {
        lemma_find_from_at(s@, pos as int, '\n', j as int);
    }
    j
}

/// Reads one entry line `s[pos..j]`; answers exactly what the line means.
fn parse_entry_exec(s: &str, pos: usize, j: usize) -> (r: Option<(String, String)>)
    requires
        pos <= j <= s@.len(),
    ensures
        r matches Some(p) ==> parse_entry(s@.subrange(pos as int, j as int)) == Some((p.0@, p.1@)),
        r is None ==> parse_entry(s@.subrange(pos as int, j as int)) is None,
{
    let ghost l = s@.subrange(pos as int, j as int);
    let mut k: usize = pos;
    while k < j && s.get_char(k) != ' '
        invariant
            pos <= k <= j <= s@.len(),
            forall|x: int| pos <= x < k ==> s@[x] != ' ',
        decreases j - k,
    {
        k += 1;
    }
    proof {
        assert forall|x: int| 0 <= x < k - pos implies l[x] != ' ' by {
            assert(l[x] == s@[pos + x]);
        }
        if k < j {
            assert(l[k - pos] == s@[k as int]);
        }
        lemma_find_from_at(l, 0, ' ', k as int - pos);
    }
    if j - k < 5 {
        return None;
    }
    proof {
        assert(l[k - pos + 1] == s@[k + 1]);
        assert(l[k - pos + 2] == s@[k + 2]);
        assert(l[k - pos + 3] == s@[k + 3]);
        assert(l[l.len() - 1] == s@[j - 1]);
    }
    if s.get_char(k + 1) != '=' || s.get_char(k + 2) != ' ' || s.get_char(k + 3) != '"'
        || s.get_char(j - 1) != '"' {
        return None;
    }
    let name = s.substring_char(pos, k);
    proof {
        assert(name@ =~= l.subrange(0, k - pos));
    }
    if !check_name(name) {
        return None;
    }
    let value = s.substring_char(k + 4, j - 1);
    proof {
        assert(value@ =~= l.subrange(k - pos + 4, l.len() - 1));
    }
    if !check_value(value) {
        return None;
    }
    Some((name.to_owned(), value.to_owned()))
}

/// Deserializes a manifest. Returns the record exactly when the text means
/// one; a malformed text is a fatal parse error naming the offending line.
pub fn parse_manifest(s: &str) -> (r: Result<Manifest, Error>)
    ensures
        r matches Ok(m) ==> m.wf() && parse_manifest_from(s@, 0, 0, Seq::empty(), Seq::empty())
            == Some((views_of(m.requirements.entries@), views_of(m.packages.entries@))),
        r matches Err(e) ==> parse_manifest_from(s@, 0, 0, Seq::empty(), Seq::empty()) is None
            && e is ParseFailed,
{
    proof {
        reveal_strlit("[requirements]");
        reveal_strlit("[packages]");
    }
    let n = s.unicode_len();
    let mut pos: usize = 0;
    let mut sec: usize = 0;
    let mut req = Table::new();
    let mut pkg = Table::new();
    let mut line: usize = 0;
    proof {
        assert(views_of(req.entries@) =~= Seq::<(Seq<char>, Seq<char>)>::empty());
        assert(views_of(pkg.entries@) =~= Seq::<(Seq<char>, Seq<char>)>::empty());
    }
    while pos < n
        invariant
            pos <= n,
            n == s@.len(),
            req.wf(),
            pkg.wf(),
            sec <= 2,
            parse_manifest_from(s@, 0, 0, Seq::empty(), Seq::empty()) == parse_manifest_from(
                s@,
                pos as int,
                sec as int,
                views_of(req.entries@),
                views_of(pkg.entries@),
            ),
        decreases n - pos,
    {
        proof {
            reveal_strlit("[requirements]");
            reveal_strlit("[packages]");
        }
        let j = find_newline(s, pos, n);
        let ghost l = s@.subrange(pos as int, j as int);
        let nxt: usize = if j == n {
            j
        } else {
            j + 1
        };
        if j == pos || s.get_char(pos) == '#' {
            proof {
                assert(skip_line(l));
            }
        } else if str_range_eq(s, pos, j, "[requirements]") {
            if sec != 0 {
                return Err(Error::ParseFailed { line });
            }
            sec = 1;
        } else if str_range_eq(s, pos, j, "[packages]") {
            if sec != 1 {
                return Err(Error::ParseFailed { line });
            }
            sec = 2;
        } else {
            proof {
                assert(l[0] == s@[pos as int]);
                assert(!skip_line(l));
            }
            match parse_entry_exec(s, pos, j) {
                Option::None => {
                    return Err(Error::ParseFailed { line });
                },
                Option::Some((nm, vl)) => {
                    let ghost nmv = nm@;
                    let ghost vlv = vl@;
                    if sec == 1 {
                        let ghost rv = views_of(req.entries@);
                        proof {
                            lemma_map_of(req.entries@);
                            lemma_views_has(req.entries@, nmv);
                        }
                        if !req.insert(nm, vl) {
                            return Err(Error::ParseFailed { line });
                        }
                        proof {
                            assert(views_of(req.entries@) =~= rv.push((nmv, vlv)));
                        }
                    } else if sec == 2 {
                        let ghost pv = views_of(pkg.entries@);
                        proof {
                            lemma_map_of(pkg.entries@);
                            lemma_views_has(pkg.entries@, nmv);
                        }
                        if !pkg.insert(nm, vl) {
                            return Err(Error::ParseFailed { line });
                        }
                        proof {
                            assert(views_of(pkg.entries@) =~= pv.push((nmv, vlv)));
                        }
                    } else {
                        return Err(Error::ParseFailed { line });
                    }
                },
            }
        }
        pos = nxt;
        line = if line == usize::MAX {
            line
        } else {
            line + 1
        };
    }
    if sec != 2 {
        return Err(Error::ParseFailed { line });
    }
    Ok(Manifest { requirements: req, packages: pkg })
}

/// Deserializes a ledger; exactly like the manifest, with the single
/// `[packages]` section.
pub fn parse_ledger(s: &str) -> (r: Result<LocalPackages, Error>)
    ensures
        r matches Ok(lp) ==> lp.wf() && parse_ledger_from(s@, 0, 0, Seq::empty()) == Some(
            views_of(lp.packages.entries@),
        ),
        r matches Err(e) ==> parse_ledger_from(s@, 0, 0, Seq::empty()) is None && e is ParseFailed,
{
    proof {
        reveal_strlit("[packages]");
    }
    let n = s.unicode_len();
    let mut pos: usize = 0;
    let mut sec: usize = 0;
    let mut pkg = Table::new();
    let mut line: usize = 0;
    proof {
        assert(views_of(pkg.entries@) =~= Seq::<(Seq<char>, Seq<char>)>::empty());
    }
    while pos < n
        invariant
            pos <= n,
            n == s@.len(),
            pkg.wf(),
            sec <= 1,
            parse_ledger_from(s@, 0, 0, Seq::empty()) == parse_ledger_from(
                s@,
                pos as int,
                sec as int,
                views_of(pkg.entries@),
            ),
        decreases n - pos,
    {
        proof {
            reveal_strlit("[packages]");
        }
        let j = find_newline(s, pos, n);
        let ghost l = s@.subrange(pos as int, j as int);
        let nxt: usize = if j == n {
            j
        } else {
            j + 1
        };
        if j == pos || s.get_char(pos) == '#' {
            proof {
                assert(skip_line(l));
            }
        } else if str_range_eq(s, pos, j, "[packages]") {
            if sec != 0 {
                return Err(Error::ParseFailed { line });
            }
            sec = 1;
        } else {
            proof {
                assert(l[0] == s@[pos as int]);
                assert(!skip_line(l));
            }
            match parse_entry_exec(s, pos, j) {
                Option::None => {
                    return Err(Error::ParseFailed { line });
                },
                Option::Some((nm, vl)) => {
                    let ghost nmv = nm@;
                    let ghost vlv = vl@;
                    if sec == 1 {
                        let ghost pv = views_of(pkg.entries@);
                        proof {
                            lemma_map_of(pkg.entries@);
                            lemma_views_has(pkg.entries@, nmv);
                        }
                        if !pkg.insert(nm, vl) {
                            return Err(Error::ParseFailed { line });
                        }
                        proof {
                            assert(views_of(pkg.entries@) =~= pv.push((nmv, vlv)));
                        }
                    } else {
                        return Err(Error::ParseFailed { line });
                    }
                },
            }
        }
        pos = nxt;
        line = if line == usize::MAX {
            line
        } else {
            line + 1
        };
    }
    if sec != 1 {
        return Err(Error::ParseFailed { line });
    }
    Ok(LocalPackages { packages: pkg })
}


/// Reuse idempotence, end to end: a stored manifest read back from its
/// rendered text spells out the same record, so when the requirement set
/// is unchanged the decision is to reuse it — no resolution, no registry
/// lookup — and writing the reused record reproduces the stored bytes
/// exactly.
pub proof fn lemma_second_run_identical(m0: Manifest, m1: Manifest, current: Table)
    requires
        views_of(m1.requirements.entries@) == views_of(m0.requirements.entries@),
        views_of(m1.packages.entries@) == views_of(m0.packages.entries@),
        m0.requirements@ == current@,
    ensures
        !crate::manifest::needs_resolution(current@, Some(m1)),
        manifest_text(m1) == manifest_text(m0),
{
    crate::table::lemma_views_same_map(m1.requirements.entries@, m0.requirements.entries@);
    lemma_rewrite_identical(m1, m0);
}

/// An entry line holds no newline, is no comment and no section header,
/// and reads back as exactly its name and value.
pub proof fn lemma_entry_line_shape(nm: Seq<char>, vl: Seq<char>)
    requires
        valid_name(nm),
        valid_value(vl),
    ensures
        entry_line(nm, vl).len() == nm.len() + vl.len() + 5,
        forall|k: int| 0 <= k < entry_line(nm, vl).len() ==> entry_line(nm, vl)[k] != '\n',
        !skip_line(entry_line(nm, vl)),
        entry_line(nm, vl) != "[requirements]"@,
        entry_line(nm, vl) != "[packages]"@,
        parse_entry(entry_line(nm, vl)) == Some((nm, vl)),
{
    reveal_strlit(" = \"");
    reveal_strlit("\"");
    reveal_strlit("[requirements]");
    reveal_strlit("[packages]");
    let l = entry_line(nm, vl);
    let n = nm.len() as int;
    assert(l.len() == nm.len() + vl.len() + 5);
    assert forall|k: int| 0 <= k < l.len() implies l[k] != '\n' by {
        if k < n {
            assert(l[k] == nm[k]);
            assert(crate::text::name_char(nm[k]));
        } else if k < n + 4 {
            assert(l[k] == (" = \""@)[k - n]);
        } else if k < n + 4 + vl.len() {
            assert(l[k] == vl[k - n - 4]);
            assert(crate::text::value_char(vl[k - n - 4]));
        } else {
            assert(l[k] == ("\""@)[0]);
        }
    }
    assert(l[0] == nm[0]);
    assert(crate::text::name_char(nm[0]));
    assert(!skip_line(l));
    assert(l != "[requirements]"@) by {
        if l == "[requirements]"@ {
            assert(l[0] == '[');
        }
    }
    assert(l != "[packages]"@) by {
        if l == "[packages]"@ {
            assert(l[0] == '[');
        }
    }
    assert forall|k: int| 0 <= k < n implies l[k] != ' ' by {
        assert(l[k] == nm[k]);
        assert(crate::text::name_char(nm[k]));
    }
    assert(l[n] == (" = \""@)[0]);
    lemma_find_from_at(l, 0, ' ', n);
    assert(l[n + 1] == (" = \""@)[1]);
    assert(l[n + 2] == (" = \""@)[2]);
    assert(l[n + 3] == (" = \""@)[3]);
    assert(l[l.len() - 1] == ("\""@)[0]);
    assert(l.subrange(0, n) =~= nm);
    assert(l.subrange(n + 4, l.len() - 1) =~= vl);
}

/// A line of known newline-free content followed by a newline: the reader
/// finds its end exactly at its length.
pub proof fn lemma_line_at(s: Seq<char>, pos: int, l: Seq<char>)
    requires
        0 <= pos,
        pos + l.len() + 1 <= s.len(),
        forall|k: int| 0 <= k < l.len() ==> l[k] != '\n',
        s.subrange(pos, pos + l.len() + 1) == l + "\n"@,
    ensures
        find_from(s, pos, '\n') == pos + l.len(),
        s.subrange(pos, pos + l.len()) == l,
{
    reveal_strlit("\n");
    let seg = s.subrange(pos, pos + l.len() + 1);
    assert forall|k: int| pos <= k < pos + l.len() implies s[k] != '\n' by {
        assert(seg[k - pos] == s[k]);
        assert((l + "\n"@)[k - pos] == l[k - pos]);
    }
    assert(s[pos + l.len()] == seg[l.len() as int]);
    assert((l + "\n"@)[l.len() as int] == ("\n"@)[0]);
    assert(("\n"@)[0] == '\n');
    lemma_find_from_at(s, pos, '\n', pos + l.len());
    assert(s.subrange(pos, pos + l.len()) =~= l);
}

/// Reading the rendered entries of `e` from entry `i` on, inside the
/// requirements section, advances the reader over them and collects
/// exactly those entries, in order.
proof fn lemma_parse_req_entries(
    s: Seq<char>,
    pos: int,
    e: Seq<(String, String)>,
    i: int,
    pkg: Seq<(Seq<char>, Seq<char>)>,
)
    requires
        valid_entries(e),
        distinct_names(e),
        0 <= i <= e.len(),
        0 <= pos,
        pos + entries_text_from(e, i).len() <= s.len(),
        s.subrange(pos, pos + entries_text_from(e, i).len()) == entries_text_from(e, i),
    ensures
        parse_manifest_from(s, pos, 1, views_of(e.take(i)), pkg) == parse_manifest_from(
            s,
            pos + entries_text_from(e, i).len(),
            1,
            views_of(e),
            pkg,
        ),
    decreases e.len() - i,
{
    if i == e.len() {
        assert(e.take(i) =~= e);
    } else {
        let nm = e[i].0@;
        let vl = e[i].1@;
        let line = entry_line(nm, vl);
        let seg = entries_text_from(e, i);
        let rest = entries_text_from(e, i + 1);
        assert(seg == line + "\n"@ + rest);
        reveal_strlit("\n");
        assert(("\n"@).len() == 1);
        lemma_entry_line_shape(nm, vl);
        assert(seg.len() == line.len() + 1 + rest.len());
        assert(s.subrange(pos, pos + line.len() + 1) =~= line + "\n"@) by {
            assert forall|k: int| 0 <= k < line.len() + 1 implies s.subrange(
                pos,
                pos + line.len() + 1,
            )[k] == (line + "\n"@)[k] by {
                assert(s.subrange(pos, pos + line.len() + 1)[k] == s[pos + k]);
                assert(s.subrange(pos, pos + seg.len())[k] == s[pos + k]);
                assert(seg[k] == ((line + "\n"@) + rest)[k]);
            }
        }
        lemma_line_at(s, pos, line);
        let j = pos + line.len();
        assert(j < s.len());
        assert(!seq_has_name(views_of(e.take(i)), nm)) by {
            if seq_has_name(views_of(e.take(i)), nm) {
                let x = choose|x: int|
                    0 <= x < views_of(e.take(i)).len() && views_of(e.take(i))[x].0 == nm;
                assert(e.take(i)[x] == e[x]);
                assert(e[x].0@ == e[i].0@);
            }
        }
        assert(views_of(e.take(i)).push((nm, vl)) =~= views_of(e.take(i + 1)));
        let pos2 = pos + line.len() + 1;
        assert(s.subrange(pos2, pos2 + rest.len()) =~= rest) by {
            assert forall|k: int| 0 <= k < rest.len() implies s.subrange(
                pos2,
                pos2 + rest.len(),
            )[k] == rest[k] by {
                assert(s.subrange(pos2, pos2 + rest.len())[k] == s[pos2 + k]);
                assert(s.subrange(pos, pos + seg.len())[line.len() + 1 + k] == s[pos2 + k]);
                assert(seg[line.len() + 1 + k] == rest[k]);
            }
        }
        lemma_parse_req_entries(s, pos2, e, i + 1, pkg);
        assert(seg.len() == line.len() + 1 + rest.len());
    }
}

/// The same, inside the packages section.
proof fn lemma_parse_pkg_entries(
    s: Seq<char>,
    pos: int,
    e: Seq<(String, String)>,
    i: int,
    req: Seq<(Seq<char>, Seq<char>)>,
)
    requires
        valid_entries(e),
        distinct_names(e),
        0 <= i <= e.len(),
        0 <= pos,
        pos + entries_text_from(e, i).len() <= s.len(),
        s.subrange(pos, pos + entries_text_from(e, i).len()) == entries_text_from(e, i),
    ensures
        parse_manifest_from(s, pos, 2, req, views_of(e.take(i))) == parse_manifest_from(
            s,
            pos + entries_text_from(e, i).len(),
            2,
            req,
            views_of(e),
        ),
    decreases e.len() - i,
{
    if i == e.len() {
        assert(e.take(i) =~= e);
    } else {
        let nm = e[i].0@;
        let vl = e[i].1@;
        let line = entry_line(nm, vl);
        let seg = entries_text_from(e, i);
        let rest = entries_text_from(e, i + 1);
        assert(seg == line + "\n"@ + rest);
        reveal_strlit("\n");
        assert(("\n"@).len() == 1);
        lemma_entry_line_shape(nm, vl);
        assert(seg.len() == line.len() + 1 + rest.len());
        assert(s.subrange(pos, pos + line.len() + 1) =~= line + "\n"@) by {
            assert forall|k: int| 0 <= k < line.len() + 1 implies s.subrange(
                pos,
                pos + line.len() + 1,
            )[k] == (line + "\n"@)[k] by {
                assert(s.subrange(pos, pos + line.len() + 1)[k] == s[pos + k]);
                assert(s.subrange(pos, pos + seg.len())[k] == s[pos + k]);
                assert(seg[k] == ((line + "\n"@) + rest)[k]);
            }
        }
        lemma_line_at(s, pos, line);
        let j = pos + line.len();
        assert(j < s.len());
        assert(!seq_has_name(views_of(e.take(i)), nm)) by {
            if seq_has_name(views_of(e.take(i)), nm) {
                let x = choose|x: int|
                    0 <= x < views_of(e.take(i)).len() && views_of(e.take(i))[x].0 == nm;
                assert(e.take(i)[x] == e[x]);
                assert(e[x].0@ == e[i].0@);
            }
        }
        assert(views_of(e.take(i)).push((nm, vl)) =~= views_of(e.take(i + 1)));
        let pos2 = pos + line.len() + 1;
        assert(s.subrange(pos2, pos2 + rest.len()) =~= rest) by {
            assert forall|k: int| 0 <= k < rest.len() implies s.subrange(
                pos2,
                pos2 + rest.len(),
            )[k] == rest[k] by {
                assert(s.subrange(pos2, pos2 + rest.len())[k] == s[pos2 + k]);
                assert(s.subrange(pos, pos + seg.len())[line.len() + 1 + k] == s[pos2 + k]);
                assert(seg[line.len() + 1 + k] == rest[k]);
            }
        }
        lemma_parse_pkg_entries(s, pos2, e, i + 1, req);
        assert(seg.len() == line.len() + 1 + rest.len());
    }
}

/// The same, inside a ledger's packages section.
proof fn lemma_parse_ledger_entries(s: Seq<char>, pos: int, e: Seq<(String, String)>, i: int)
    requires
        valid_entries(e),
        distinct_names(e),
        0 <= i <= e.len(),
        0 <= pos,
        pos + entries_text_from(e, i).len() <= s.len(),
        s.subrange(pos, pos + entries_text_from(e, i).len()) == entries_text_from(e, i),
    ensures
        parse_ledger_from(s, pos, 1, views_of(e.take(i))) == parse_ledger_from(
            s,
            pos + entries_text_from(e, i).len(),
            1,
            views_of(e),
        ),
    decreases e.len() - i,
{
    if i == e.len() {
        assert(e.take(i) =~= e);
    } else {
        let nm = e[i].0@;
        let vl = e[i].1@;
        let line = entry_line(nm, vl);
        let seg = entries_text_from(e, i);
        let rest = entries_text_from(e, i + 1);
        assert(seg == line + "\n"@ + rest);
        reveal_strlit("\n");
        assert(("\n"@).len() == 1);
        lemma_entry_line_shape(nm, vl);
        assert(seg.len() == line.len() + 1 + rest.len());
        assert(s.subrange(pos, pos + line.len() + 1) =~= line + "\n"@) by {
            assert forall|k: int| 0 <= k < line.len() + 1 implies s.subrange(
                pos,
                pos + line.len() + 1,
            )[k] == (line + "\n"@)[k] by {
                assert(s.subrange(pos, pos + line.len() + 1)[k] == s[pos + k]);
                assert(s.subrange(pos, pos + seg.len())[k] == s[pos + k]);
                assert(seg[k] == ((line + "\n"@) + rest)[k]);
            }
        }
        lemma_line_at(s, pos, line);
        let j = pos + line.len();
        assert(j < s.len());
        assert(!seq_has_name(views_of(e.take(i)), nm)) by {
            if seq_has_name(views_of(e.take(i)), nm) {
                let x = choose|x: int|
                    0 <= x < views_of(e.take(i)).len() && views_of(e.take(i))[x].0 == nm;
                assert(e.take(i)[x] == e[x]);
                assert(e[x].0@ == e[i].0@);
            }
        }
        assert(views_of(e.take(i)).push((nm, vl)) =~= views_of(e.take(i + 1)));
        let pos2 = pos + line.len() + 1;
        assert(s.subrange(pos2, pos2 + rest.len()) =~= rest) by {
            assert forall|k: int| 0 <= k < rest.len() implies s.subrange(
                pos2,
                pos2 + rest.len(),
            )[k] == rest[k] by {
                assert(s.subrange(pos2, pos2 + rest.len())[k] == s[pos2 + k]);
                assert(s.subrange(pos, pos + seg.len())[line.len() + 1 + k] == s[pos2 + k]);
                assert(seg[line.len() + 1 + k] == rest[k]);
            }
        }
        lemma_parse_ledger_entries(s, pos2, e, i + 1);
        assert(seg.len() == line.len() + 1 + rest.len());
    }
}

/// Round trip for the manifest: reading a rendered manifest recovers
/// exactly the record that was written — every requirement and every
/// package, name, value and order alike.
pub proof fn lemma_manifest_round_trip(m: Manifest)
    requires
        m.wf(),
    ensures
        parse_manifest_from(manifest_text(m), 0, 0, Seq::empty(), Seq::empty()) == Some((
            views_of(m.requirements.entries@),
            views_of(m.packages.entries@),
        )),
{
    reveal_strlit("# Kept up to date by the package manager; do not edit by hand.");
    reveal_strlit("[requirements]");
    reveal_strlit("[packages]");
    reveal_strlit("\n");
    let s = manifest_text(m);
    let h = header_body();
    let rq = "[requirements]"@;
    let pk = "[packages]"@;
    let re = m.requirements.entries@;
    let pe = m.packages.entries@;
    let et1 = entries_text(re);
    let et2 = entries_text(pe);
    let b1 = h + "\n"@;
    let b2 = b1 + rq;
    let b3 = b2 + "\n"@;
    let b4 = b3 + et1;
    let b5 = b4 + pk;
    let b6 = b5 + "\n"@;
    assert(s == b6 + et2);
    let p1 = h.len() as int + 1;
    let p2 = p1 + rq.len() as int + 1;
    let p3 = p2 + et1.len() as int;
    let p4 = p3 + pk.len() as int + 1;
    let p5 = p4 + et2.len() as int;
    assert(s.len() == p5);
    assert(forall|k: int| 0 <= k < h.len() ==> h[k] != '\n');
    assert(forall|k: int| 0 <= k < rq.len() ==> rq[k] != '\n');
    assert(forall|k: int| 0 <= k < pk.len() ==> pk[k] != '\n');
    // header line
    assert(s.subrange(0, p1) =~= h + "\n"@);
    lemma_line_at(s, 0, h);
    assert(skip_line(h));
    assert(parse_manifest_from(s, 0, 0, Seq::empty(), Seq::empty()) == parse_manifest_from(
        s,
        p1,
        0,
        Seq::empty(),
        Seq::empty(),
    ));
    // [requirements]
    assert(s.subrange(p1, p1 + rq.len() + 1) =~= rq + "\n"@);
    lemma_line_at(s, p1, rq);
    assert(!skip_line(rq));
    assert(parse_manifest_from(s, p1, 0, Seq::empty(), Seq::empty()) == parse_manifest_from(
        s,
        p2,
        1,
        Seq::empty(),
        Seq::empty(),
    ));
    // requirement entries
    assert(s.subrange(p2, p2 + et1.len()) =~= et1);
    assert(views_of(re.take(0)) =~= Seq::<(Seq<char>, Seq<char>)>::empty());
    lemma_parse_req_entries(s, p2, re, 0, Seq::empty());
    // [packages]
    assert(s.subrange(p3, p3 + pk.len() + 1) =~= pk + "\n"@);
    lemma_line_at(s, p3, pk);
    assert(!skip_line(pk));
    assert(pk != rq);
    assert(parse_manifest_from(s, p3, 1, views_of(re), Seq::empty()) == parse_manifest_from(
        s,
        p4,
        2,
        views_of(re),
        Seq::empty(),
    ));
    // package entries
    assert(s.subrange(p4, p4 + et2.len()) =~= et2);
    assert(views_of(pe.take(0)) =~= Seq::<(Seq<char>, Seq<char>)>::empty());
    lemma_parse_pkg_entries(s, p4, pe, 0, views_of(re));
    // end of text, inside the packages section
    assert(parse_manifest_from(s, p5, 2, views_of(re), views_of(pe)) == Some((
        views_of(re),
        views_of(pe),
    )));
}

/// Round trip for the ledger.
pub proof fn lemma_ledger_round_trip(l: LocalPackages)
    requires
        l.wf(),
    ensures
        parse_ledger_from(ledger_text(l), 0, 0, Seq::empty()) == Some(views_of(l.packages.entries@)),
{
    reveal_strlit("[packages]");
    reveal_strlit("\n");
    let s = ledger_text(l);
    let pk = "[packages]"@;
    let pe = l.packages.entries@;
    let et = entries_text(pe);
    let b1 = pk + "\n"@;
    assert(s == b1 + et);
    let p1 = pk.len() as int + 1;
    let p2 = p1 + et.len() as int;
    assert(s.len() == p2);
    assert(forall|k: int| 0 <= k < pk.len() ==> pk[k] != '\n');
    assert(s.subrange(0, p1) =~= pk + "\n"@);
    lemma_line_at(s, 0, pk);
    assert(!skip_line(pk));
    assert(parse_ledger_from(s, 0, 0, Seq::empty()) == parse_ledger_from(
        s,
        p1,
        1,
        Seq::empty(),
    ));
    assert(s.subrange(p1, p1 + et.len()) =~= et);
    assert(views_of(pe.take(0)) =~= Seq::<(Seq<char>, Seq<char>)>::empty());
    lemma_parse_ledger_entries(s, p1, pe, 0);
    assert(parse_ledger_from(s, p2, 1, views_of(pe)) == Some(views_of(pe)));
}

/// Entries that spell out the same names and values render to the same
/// text.
proof fn lemma_same_views_same_entries_text(
    a: Seq<(String, String)>,
    b: Seq<(String, String)>,
    i: int,
)
    requires
        views_of(a) == views_of(b),
        0 <= i,
    ensures
        entries_text_from(a, i) == entries_text_from(b, i),
    decreases a.len() - i,
{
    assert(a.len() == views_of(a).len());
    assert(b.len() == views_of(b).len());
    if i < a.len() {
        assert(views_of(a)[i] == views_of(b)[i]);
        assert(a[i].0@ == b[i].0@ && a[i].1@ == b[i].1@);
        lemma_same_views_same_entries_text(a, b, i + 1);
    }
}

/// Two manifests whose entries spell out the same names and values render
/// byte for byte the same text. With the round trip, a manifest read back
/// from disk and reused verbatim is rewritten as exactly the bytes that
/// were stored.
pub proof fn lemma_rewrite_identical(m1: Manifest, m2: Manifest)
    requires
        views_of(m1.requirements.entries@) == views_of(m2.requirements.entries@),
        views_of(m1.packages.entries@) == views_of(m2.packages.entries@),
    ensures
        manifest_text(m1) == manifest_text(m2),
{
    lemma_same_views_same_entries_text(m1.requirements.entries@, m2.requirements.entries@, 0);
    lemma_same_views_same_entries_text(m1.packages.entries@, m2.packages.entries@, 0);
}

} // verus!
