//! The one setting read from and written to a profile's `prefs.ini`: whether
//! ship names always show on brackets.
use vstd::prelude::*;
use crate::text::{has_prefix, same_text, starts_with, trim, trimmed};

verus! {

/// The key of the setting, with its `=`.
pub open spec fn setting_key() -> Seq<char> {
    "bracketsAlwaysShowShipText="@
}

/// The lines of `s` that begin with `cur`, as `str::lines` gives them: split
/// at each `\n`, a `\r` before it dropped, and no empty line after a final
/// line ending.
pub open spec fn lines_from(s: Seq<char>, cur: Seq<char>) -> Seq<Seq<char>>
    decreases s.len(),
{
    if s.len() == 0 {
        if cur.len() == 0 {
            Seq::empty()
        } else {
            seq![cur]
        }
    } else if s[0] == '\n' {
        seq![without_cr(cur)] + lines_from(s.drop_first(), Seq::empty())
    } else {
        lines_from(s.drop_first(), cur.push(s[0]))
    }
}

/// A line without the `\r` of a `\r\n` ending.
pub open spec fn without_cr(l: Seq<char>) -> Seq<char> {
    if l.len() > 0 && l.last() == '\r' {
        l.drop_last()
    } else {
        l
    }
}

/// The lines of a text, as `str::lines` gives them.
pub open spec fn lines_of(s: Seq<char>) -> Seq<Seq<char>> {
    lines_from(s, Seq::empty())
}

fn strip_cr(l: &str) -> (r: String)
    ensures
        r@ == without_cr(l@),
{
    let n = l.unicode_len();
    if n > 0 && l.get_char(n - 1) == '\r' {
        let r = String::from_str(l.substring_char(0, n - 1));
        assert(r@ =~= l@.drop_last());
        r
    } else {
        String::from_str(l)
    }
}

/// The lines of a text.
pub fn lines(s: &str) -> (r: Vec<String>)
    ensures
        r@.map_values(|l: String| l@) == lines_of(s@),
{
    let n = s.unicode_len();
    let mut out: Vec<String> = Vec::new();
    let mut start: usize = 0;
    let mut i: usize = 0;
    assert(s@.skip(0) =~= s@);
    assert(s@.subrange(0, 0) =~= Seq::<char>::empty());
    while i < n
        invariant
            n == s@.len(),
            start <= i <= n,
            lines_of(s@) == out@.map_values(|l: String| l@) + lines_from(
                s@.skip(i as int),
                s@.subrange(start as int, i as int),
            ),
        decreases n - i,
    {
        let c = s.get_char(i);
        let ghost rest = s@.skip(i as int);
        let ghost cur = s@.subrange(start as int, i as int);
        assert(rest[0] == c);
        assert(rest.drop_first() =~= s@.skip(i + 1));
        if c == '\n' {
            let line = strip_cr(s.substring_char(start, i));
            let ghost before = out@.map_values(|l: String| l@);
            out.push(line);
            assert(out@.map_values(|l: String| l@) =~= before.push(without_cr(cur)));
            assert(s@.subrange(i + 1, i + 1) =~= Seq::<char>::empty());
            assert(lines_of(s@) =~= out@.map_values(|l: String| l@) + lines_from(
                s@.skip(i + 1),
                Seq::empty(),
            ));
            start = i + 1;
        } else {
            assert(cur.push(c) =~= s@.subrange(start as int, i + 1));
        }
        i = i + 1;
    }
    assert(s@.skip(n as int) =~= Seq::<char>::empty());
    if start < n {
        let ghost before = out@.map_values(|l: String| l@);
        out.push(String::from_str(s.substring_char(start, n)));
        assert(out@.map_values(|l: String| l@) =~= before.push(s@.subrange(start as int, n as int)));
    } else {
        assert(s@.subrange(start as int, n as int) =~= Seq::<char>::empty());
        assert(out@.map_values(|l: String| l@) + Seq::<Seq<char>>::empty() =~= out@.map_values(
            |l: String| l@,
        ));
    }
    out
}

/// The line, trimmed, sets the key.
pub open spec fn is_setting_line(line: Seq<char>) -> bool {
    has_prefix(trimmed(line), setting_key())
}

/// The line, trimmed, sets the key to `1` (spaces around the value allowed).
pub open spec fn line_enables(line: Seq<char>) -> bool {
    is_setting_line(line) && trimmed(trimmed(line).skip(setting_key().len() as int)) == "1"@
}

/// Some line of the text turns the setting on.
pub open spec fn text_enables(content: Seq<char>) -> bool {
    exists|i: int| 0 <= i < lines_of(content).len() && line_enables(#[trigger] lines_of(content)[i])
}

fn enables(line: &str) -> (r: bool)
    ensures
        r == line_enables(line@),
{
    let t = trim(line);
    if !starts_with(t, "bracketsAlwaysShowShipText=") {
        return false;
    }
    proof {
        reveal_strlit("bracketsAlwaysShowShipText=");
    }
    let rest = t.substring_char(27, t.unicode_len());
    assert(rest@ =~= t@.skip(27));
    same_text(trim(rest), "1")
}

/// Whether a `prefs.ini` text turns the setting on.
pub fn brackets_enabled(content: &str) -> (r: bool)
    ensures
        r == text_enables(content@),
{
    let ls = lines(content);
    let ghost views = ls@.map_values(|l: String| l@);
    let mut i: usize = 0;
    while i < ls.len()
        invariant
            views == lines_of(content@),
            views == ls@.map_values(|l: String| l@),
            views.len() == ls@.len(),
            i <= ls@.len(),
            forall|j: int| 0 <= j < i ==> !line_enables(#[trigger] lines_of(content@)[j]),
        decreases ls@.len() - i,
    {
        assert(views[i as int] == ls@[i as int]@);
        if enables(ls[i].as_str()) {
            return true;
        }
        i = i + 1;
    }
    false
}

/// Whether the `prefs.ini` text of any profile of a server turns the
/// setting on.
pub fn brackets_enabled_in_any(contents: &Vec<String>) -> (r: bool)
    ensures
        r == exists|i: int| 0 <= i < contents@.len() && text_enables(#[trigger] contents@[i]@),
{
    let mut i: usize = 0;
    while i < contents.len()
        invariant
            i <= contents@.len(),
            forall|j: int| 0 <= j < i ==> !text_enables(#[trigger] contents@[j]@),
        decreases contents@.len() - i,
    {
        if brackets_enabled(contents[i].as_str()) {
            return true;
        }
        i = i + 1;
    }
    false
}

/// The line that sets the key.
pub open spec fn setting_line(enabled: bool) -> Seq<char> {
    setting_key() + if enabled {
        "1"@
    } else {
        "0"@
    }
}

/// Lines joined with `\n` between them.
pub open spec fn joined(ls: Seq<Seq<char>>) -> Seq<char>
    decreases ls.len(),
{
    if ls.len() == 0 {
        Seq::empty()
    } else if ls.len() == 1 {
        ls[0]
    } else {
        joined(ls.drop_last()) + seq!['\n'] + ls.last()
    }
}

/// Every line that sets the key replaced by the new setting line.
pub open spec fn replaced_lines(ls: Seq<Seq<char>>, enabled: bool) -> Seq<Seq<char>> {
    ls.map_values(
        |l: Seq<char>|
            if is_setting_line(l) {
                setting_line(enabled)
            } else {
                l
            },
    )
}

/// The new `prefs.ini` text: the setting line alone for a missing file;
/// otherwise the lines with each setting line replaced, and the setting line
/// added at the end where there was none.
pub open spec fn updated_prefs(existing: Option<Seq<char>>, enabled: bool) -> Seq<char> {
    match existing {
        None => setting_line(enabled),
        Some(c) => {
            let ls = lines_of(c);
            if exists|i: int| 0 <= i < ls.len() && is_setting_line(#[trigger] ls[i]) {
                joined(replaced_lines(ls, enabled))
            } else {
                joined(replaced_lines(ls, enabled).push(setting_line(enabled)))
            }
        },
    }
}

fn setting_line_text(enabled: bool) -> (r: String)
    ensures
        r@ == setting_line(enabled),
{
    let v = if enabled {
        "1"
    } else {
        "0"
    };
    String::from_str("bracketsAlwaysShowShipText=").concat(v)
}

fn join_lines(ls: &Vec<String>) -> (r: String)
    ensures
        r@ == joined(ls@.map_values(|l: String| l@)),
{
    let mut r = String::new();
    let mut i: usize = 0;
    proof {
        reveal_strlit("\n");
    }
    while i < ls.len()
        invariant
            i <= ls@.len(),
            "\n"@ == seq!['\n'],
            r@ == joined(ls@.subrange(0, i as int).map_values(|l: String| l@)),
        decreases ls@.len() - i,
    {
        let ghost pre = ls@.subrange(0, i + 1).map_values(|l: String| l@);
        assert(pre.drop_last() =~= ls@.subrange(0, i as int).map_values(|l: String| l@));
        assert(pre.last() == ls@[i as int]@);
        if i == 0 {
            assert(pre.len() == 1);
            r = ls[i].clone();
        } else {
            r.append("\n");
            r.append(ls[i].as_str());
        }
        i = i + 1;
    }
    assert(ls@.subrange(0, ls@.len() as int) =~= ls@);
    r
}

/// The `prefs.ini` text after setting the key, from the existing text or
/// `None` where there is no file yet.
pub fn with_brackets_setting(existing: Option<&str>, enabled: bool) -> (r: String)
    ensures
        r@ == updated_prefs(
            match existing {
                Some(c) => Some(c@),
                None => None,
            },
            enabled,
        ),
{
    let content = match existing {
        None => return setting_line_text(enabled),
        Some(c) => c,
    };
    let ls = lines(content);
    let ghost views = ls@.map_values(|l: String| l@);
    let mut out: Vec<String> = Vec::new();
    let mut found = false;
    let mut i: usize = 0;
    while i < ls.len()
        invariant
            views == lines_of(content@),
            views == ls@.map_values(|l: String| l@),
            views.len() == ls@.len(),
            i <= ls@.len(),
            out@.map_values(|l: String| l@) == replaced_lines(views.subrange(0, i as int), enabled),
            found == exists|j: int| 0 <= j < i && is_setting_line(#[trigger] views[j]),
        decreases ls@.len() - i,
    {
        assert(views[i as int] == ls@[i as int]@);
        let t = trim(ls[i].as_str());
        let ghost before = out@.map_values(|l: String| l@);
        let ghost line = views[i as int];
        let ghost next = if is_setting_line(line) {
            setting_line(enabled)
        } else {
            line
        };
        if starts_with(t, "bracketsAlwaysShowShipText=") {
            found = true;
            out.push(setting_line_text(enabled));
        } else {
            out.push(ls[i].clone());
        }
        assert(out@.map_values(|l: String| l@) =~= before.push(next));
        assert(replaced_lines(views.subrange(0, i + 1), enabled) =~= replaced_lines(
            views.subrange(0, i as int),
            enabled,
        ).push(next));
        assert(out@.map_values(|l: String| l@) =~= replaced_lines(views.subrange(0, i + 1), enabled));
        i = i + 1;
    }
    assert(views.subrange(0, ls@.len() as int) =~= views);
    if !found {
        let ghost before = out@.map_values(|l: String| l@);
        out.push(setting_line_text(enabled));
        assert(out@.map_values(|l: String| l@) =~= before.push(setting_line(enabled)));
    }
    join_lines(&out)
}

} // verus!
