//! Applications launched at session start: XDG autostart `.desktop` files
//! on Linux, the `Run` registry keys on Windows. Reading and writing the
//! files and keys happens outside the library; here stand how a listing
//! becomes entries, how a `.desktop` file is read and rewritten, and which
//! file or key an action applies to.

use vstd::prelude::*;
use crate::text::{
    is_ws, lemma_join_unlines, lemma_trim_end_prefix, trim_end, lemma_lines_unlines, lemma_trim_identity, plain_line, unlines,
    lemma_lines_no_newline, lemma_lines_unlines_cr, lemma_trim_strip_cr, strip_cr, strip_crs,
    alphanumeric, is_alphanumeric, ascii_lower, chars_eq_str, chars_of, join, join_from, lines, split_lines, string_of, sub_chars,
    trim, trim_chars, trim_start, trim_start_chars, vv,
};

verus! {

/// Where a startup entry comes from.
#[derive(Clone, Copy, Debug, PartialEq, Eq, Structural)]
pub enum StartupSource {
    /// Linux: the user's autostart directory (writable without privileges).
    UserAutostart,
    /// Linux: a system autostart directory (read-only in practice; disabling
    /// one of its entries writes a user copy that masks it).
    SystemAutostart,
    /// Windows: the current user's `Run` key.
    UserRegistry,
    /// Windows: the machine's `Run` key (administrator rights to change).
    MachineRegistry,
}

/// The label shown for a source.
pub open spec fn label_spec(s: StartupSource) -> Seq<char> {
    match s {
        StartupSource::UserAutostart => "Autostart (utilisateur)"@,
        StartupSource::SystemAutostart => "Autostart (système)"@,
        StartupSource::UserRegistry => "Registre (HKCU)"@,
        StartupSource::MachineRegistry => "Registre (HKLM)"@,
    }
}

impl StartupSource {
    /// The label shown for this source.
    pub fn label(&self) -> (r: &'static str)
        ensures
            r@ == label_spec(*self),
    {
        match self {
            StartupSource::UserAutostart => "Autostart (utilisateur)",
            StartupSource::SystemAutostart => "Autostart (système)",
            StartupSource::UserRegistry => "Registre (HKCU)",
            StartupSource::MachineRegistry => "Registre (HKLM)",
        }
    }
}

/// Whether two texts are equal ignoring ASCII case, as
/// `str::eq_ignore_ascii_case` compares an ASCII pattern.
pub open spec fn eq_ignore_ascii_case(a: Seq<char>, b: Seq<char>) -> bool {
    a.len() == b.len() && forall|i: int| 0 <= i < a.len() ==> ascii_lower(a[i]) == ascii_lower(b[i])
}

/// Whether `s` starts with `p`.
pub open spec fn starts_with(s: Seq<char>, p: Seq<char>) -> bool {
    p.len() <= s.len() && s.subrange(0, p.len() as int) == p
}

/// `s` without the prefix `p` (meaningful when `s` starts with `p`).
pub open spec fn after(s: Seq<char>, p: Seq<char>) -> Seq<char> {
    s.subrange(p.len() as int, s.len() as int)
}

/// What reading a `.desktop` file has found so far: its name, its command,
/// whether the last `Hidden=` line hides it, whether an
/// `X-GNOME-Autostart-enabled=false` line disables it, and whether the
/// reader is in the `[Desktop Entry]` group.
pub struct DesktopState {
    pub name: Option<Seq<char>>,
    pub command: Option<Seq<char>>,
    pub hidden: bool,
    pub gnome_off: bool,
    pub in_entry: bool,
}

/// One line of a `.desktop` file read. The trimmed line opens a group when
/// it starts with `[`; inside `[Desktop Entry]`, `Name=` and `Exec=` set
/// the name and command, `Hidden=` sets hiddenness (`true` in any ASCII
/// case hides), and `X-GNOME-Autostart-enabled=false` (any ASCII case)
/// disables the entry, whatever comes before or after it.
pub open spec fn desktop_step(st: DesktopState, line: Seq<char>) -> DesktopState {
    let l = trim(line);
    if starts_with(l, "["@) {
        DesktopState { in_entry: l == "[Desktop Entry]"@, ..st }
    } else if !st.in_entry {
        st
    } else if starts_with(l, "Name="@) {
        DesktopState { name: Some(after(l, "Name="@)), ..st }
    } else if starts_with(l, "Exec="@) {
        DesktopState { command: Some(after(l, "Exec="@)), ..st }
    } else if starts_with(l, "Hidden="@) {
        DesktopState { hidden: eq_ignore_ascii_case(trim(after(l, "Hidden="@)), "true"@), ..st }
    } else if starts_with(l, "X-GNOME-Autostart-enabled="@) {
        if eq_ignore_ascii_case(trim(after(l, "X-GNOME-Autostart-enabled="@)), "false"@) {
            DesktopState { gnome_off: true, ..st }
        } else {
            st
        }
    } else {
        st
    }
}

/// The reader's state after a sequence of lines.
pub open spec fn desktop_fold(ls: Seq<Seq<char>>) -> DesktopState
    decreases ls.len(),
{
    if ls.len() == 0 {
        DesktopState { name: None, command: None, hidden: false, gnome_off: false, in_entry: false }
    } else {
        desktop_step(desktop_fold(ls.drop_last()), ls.last())
    }
}

/// What a `.desktop` file's text gives: its name (else `stem`, the file's
/// name without extension), its command, and whether it is enabled; nothing
/// without an `Exec=` line. Both keys are honoured: the entry is enabled
/// unless its last `Hidden=` line says `true` or one of its
/// `X-GNOME-Autostart-enabled=` lines says `false`.
pub open spec fn desktop_spec(content: Seq<char>, stem: Seq<char>) -> Option<
    (Seq<char>, Seq<char>, bool),
> {
    let st = desktop_fold(lines(content));
    match st.command {
        None => None,
        Some(e) => Some(
            (
                match st.name {
                    Some(n) => n,
                    None => stem,
                },
                e,
                !(st.hidden || st.gnome_off),
            ),
        ),
    }
}

/// Whether `s` starts with the literal `p`.
fn starts_with_str(s: &[char], p: &str) -> (r: bool)
    ensures
        r == starts_with(s@, p@),
{
    let pc = chars_of(p);
    if pc.len() > s.len() {
        return false;
    }
    let head = sub_chars(s, 0, pc.len());
    crate::text::chars_eq(head.as_slice(), pc.as_slice())
}

/// Whether `a` equals the literal `b` ignoring ASCII case.
fn eq_ignore_case_str(a: &[char], b: &str) -> (r: bool)
    ensures
        r == eq_ignore_ascii_case(a@, b@),
{
    let bc = chars_of(b);
    if a.len() != bc.len() {
        return false;
    }
    let mut i: usize = 0;
    while i < a.len()
        invariant
            i <= a.len() == bc.len(),
            bc@ == b@,
            forall|j: int| 0 <= j < i ==> ascii_lower(a@[j]) == ascii_lower(bc@[j]),
        decreases a.len() - i,
    {
        if lower(a[i]) != lower(bc[i]) {
            return false;
        }
        i += 1;
    }
    true
}

/// ASCII lowercase of one character.
pub fn lower(c: char) -> (r: char)
    ensures
        r == ascii_lower(c),
{
    if 'A' <= c && c <= 'Z' {
        ((c as u32) + 32) as u8 as char
    } else {
        c
    }
}

/// The view of an optional text.
pub open spec fn opt_chars(o: Option<Vec<char>>) -> Option<Seq<char>> {
    match o {
        Some(v) => Some(v@),
        None => None,
    }
}

/// A copy of `s` without its first `n` characters.
fn skip_chars(s: &[char], n: usize) -> (r: Vec<char>)
    requires
        n <= s.len(),
    ensures
        r@ == s@.subrange(n as int, s.len() as int),
{
    sub_chars(s, n, s.len())
}

/// What a `.desktop` file's text gives: name (else `stem`), command and
/// whether the entry is enabled; `None` without an `Exec=` line.
pub fn parse_desktop_file(content: &str, stem: &str) -> (r: Option<(String, String, bool)>)
    ensures
        match r {
            Some((n, e, en)) => desktop_spec(content@, stem@) == Some((n@, e@, en)),
            None => desktop_spec(content@, stem@) is None,
        },
{
    let chars = chars_of(content);
    let ls = split_lines(chars.as_slice());
    let mut name: Option<Vec<char>> = None;
    let mut command: Option<Vec<char>> = None;
    let mut hidden = false;
    let mut gnome_off = false;
    let mut in_entry = false;
    let mut i: usize = 0;
    while i < ls.len()
        invariant
            i <= ls.len(),
            vv(ls@) == lines(content@),
            (DesktopState {
                name: opt_chars(name),
                command: opt_chars(command),
                hidden,
                gnome_off,
                in_entry,
            })
                == desktop_fold(vv(ls@).take(i as int)),
        decreases ls.len() - i,
    {
        assert(vv(ls@).take(i + 1).drop_last() =~= vv(ls@).take(i as int));
        assert(vv(ls@).take(i + 1).last() == ls@[i as int]@);
        let l = trim_chars(ls[i].as_slice());
        if starts_with_str(l.as_slice(), "[") {
            in_entry = chars_eq_str(l.as_slice(), "[Desktop Entry]");
        } else if !in_entry {
        } else if starts_with_str(l.as_slice(), "Name=") {
            proof {
                reveal_strlit("Name=");
            }
            name = Some(skip_chars(l.as_slice(), 5));
        } else if starts_with_str(l.as_slice(), "Exec=") {
            proof {
                reveal_strlit("Exec=");
            }
            command = Some(skip_chars(l.as_slice(), 5));
        } else if starts_with_str(l.as_slice(), "Hidden=") {
            proof {
                reveal_strlit("Hidden=");
            }
            let v = skip_chars(l.as_slice(), 7);
            let tv = trim_chars(v.as_slice());
            hidden = eq_ignore_case_str(tv.as_slice(), "true");
        } else if starts_with_str(l.as_slice(), "X-GNOME-Autostart-enabled=") {
            proof {
                reveal_strlit("X-GNOME-Autostart-enabled=");
            }
            let v = skip_chars(l.as_slice(), 26);
            let tv = trim_chars(v.as_slice());
            if eq_ignore_case_str(tv.as_slice(), "false") {
                gnome_off = true;
            }
        }
        i += 1;
    }
    assert(vv(ls@).take(ls.len() as int) =~= vv(ls@));
    match command {
        None => None,
        Some(e) => {
            let n = match name {
                Some(n) => string_of(n.as_slice()),
                None => String::from_str(stem),
            };
            Some((n, string_of(e.as_slice()), !(hidden || gnome_off)))
        },
    }
}


// ---------------------------------------------------------------------
// Rewriting `Hidden=`
// ---------------------------------------------------------------------

/// The index of the first line satisfying `f`, or -1.
pub open spec fn first_where(ls: Seq<Seq<char>>, f: spec_fn(Seq<char>) -> bool) -> int
    decreases ls.len(),
{
    if ls.len() == 0 {
        -1
    } else if f(ls[0]) {
        0
    } else {
        let r = first_where(ls.drop_first(), f);
        if r < 0 {
            -1
        } else {
            r + 1
        }
    }
}

proof fn lemma_first_where(ls: Seq<Seq<char>>, f: spec_fn(Seq<char>) -> bool, i: int)
    requires
        0 <= i <= ls.len(),
        forall|j: int| 0 <= j < i ==> !f(#[trigger] ls[j]),
        i == ls.len() || f(ls[i]),
    ensures
        first_where(ls, f) == (if i == ls.len() {
            -1
        } else {
            i
        }),
    decreases i,
{
    if i > 0 {
        assert forall|j: int| 0 <= j < i - 1 implies !f(#[trigger] ls.drop_first()[j]) by {
            assert(ls.drop_first()[j] == ls[j + 1]);
        }
        if i < ls.len() {
            assert(ls.drop_first()[i - 1] == ls[i]);
        }
        lemma_first_where(ls.drop_first(), f, i - 1);
    }
}

/// Whether a line sets `Hidden=` (after leading whitespace).
pub open spec fn is_hidden_line(l: Seq<char>) -> bool {
    starts_with(trim_start(l), "Hidden="@)
}

/// Whether a line is the `[Desktop Entry]` group header (after trimming).
pub open spec fn is_entry_header(l: Seq<char>) -> bool {
    trim(l) == "[Desktop Entry]"@
}

/// The `Hidden=` line for an entry to be enabled or not.
pub open spec fn hidden_line(enabled: bool) -> Seq<char> {
    "Hidden="@ + if enabled {
        "false"@
    } else {
        "true"@
    }
}

/// The lines of a `.desktop` file after enabling or disabling it: the first
/// `Hidden=` line is replaced; without one, a `Hidden=` line goes right
/// after the first `[Desktop Entry]` header, or else at the end.
pub open spec fn with_hidden(ls: Seq<Seq<char>>, enabled: bool) -> Seq<Seq<char>> {
    let h = first_where(ls, |l: Seq<char>| is_hidden_line(l));
    let e = first_where(ls, |l: Seq<char>| is_entry_header(l));
    if h >= 0 {
        ls.update(h, hidden_line(enabled))
    } else if e >= 0 {
        ls.insert(e + 1, hidden_line(enabled))
    } else {
        ls.push(hidden_line(enabled))
    }
}

/// A `.desktop` file's text after enabling or disabling it: its lines,
/// rewritten, joined with newlines and ended with one.
pub open spec fn set_hidden_spec(content: Seq<char>, enabled: bool) -> Seq<char> {
    join(with_hidden(lines(content), enabled), "\n"@) + "\n"@
}

/// Whether a line sets `Hidden=`.
fn hidden_line_at(l: &[char]) -> (r: bool)
    ensures
        r == is_hidden_line(l@),
{
    let rest = trim_start_chars(l);
    starts_with_str(rest.as_slice(), "Hidden=")
}

/// The `Hidden=` line for an entry to be enabled or not.
fn make_hidden_line(enabled: bool) -> (r: Vec<char>)
    ensures
        r@ == hidden_line(enabled),
{
    let mut r = chars_of("Hidden=");
    let v = if enabled {
        chars_of("false")
    } else {
        chars_of("true")
    };
    r.extend_from_slice(v.as_slice());
    r
}

/// A `.desktop` file's text after enabling or disabling it.
pub fn set_hidden(content: &str, enabled: bool) -> (r: String)
    ensures
        r@ == set_hidden_spec(content@, enabled),
{
    let chars = chars_of(content);
    let mut ls = split_lines(chars.as_slice());
    let ghost orig = vv(ls@);
    let mut h: usize = 0;
    while h < ls.len() && !hidden_line_at(ls[h].as_slice())
        invariant
            h <= ls.len(),
            orig == vv(ls@),
            forall|j: int| 0 <= j < h ==> !is_hidden_line(#[trigger] orig[j]),
        decreases ls.len() - h,
    {
        h += 1;
    }
    proof {
        lemma_first_where(orig, |l: Seq<char>| is_hidden_line(l), h as int);
    }
    let hl = make_hidden_line(enabled);
    if h < ls.len() {
        ls.set(h, hl);
        assert(vv(ls@) =~= with_hidden(orig, enabled));
    } else {
        let mut e: usize = 0;
        while e < ls.len() && !chars_eq_str(trim_chars(ls[e].as_slice()).as_slice(), "[Desktop Entry]")
            invariant
                e <= ls.len(),
                orig == vv(ls@),
                forall|j: int| 0 <= j < e ==> !is_entry_header(#[trigger] orig[j]),
            decreases ls.len() - e,
        {
            e += 1;
        }
        proof {
            lemma_first_where(orig, |l: Seq<char>| is_entry_header(l), e as int);
        }
        if e < ls.len() {
            ls.insert(e + 1, hl);
        } else {
            ls.push(hl);
        }
        assert(vv(ls@) =~= with_hidden(orig, enabled));
    }
    let nl = chars_of("\n");
    let mut out = join_from(&ls, 0, nl.as_slice());
    assert(vv(ls@).subrange(0, ls.len() as int) =~= vv(ls@));
    out.extend_from_slice(nl.as_slice());
    string_of(out.as_slice())
}


// ---------------------------------------------------------------------
// Entries
// ---------------------------------------------------------------------

/// One application launched at session start.
#[derive(Clone, Debug)]
pub struct StartupEntry {
    pub name: String,
    pub command: String,
    pub source: StartupSource,
    pub enabled: bool,
}

/// An entry as text.
pub struct EntrySpec {
    pub name: Seq<char>,
    pub command: Seq<char>,
    pub source: StartupSource,
    pub enabled: bool,
}

impl View for StartupEntry {
    type V = EntrySpec;

    open spec fn view(&self) -> EntrySpec {
        EntrySpec {
            name: self.name@,
            command: self.command@,
            source: self.source,
            enabled: self.enabled,
        }
    }
}

/// The views of a sequence of entries.
pub open spec fn entries_view(v: Seq<StartupEntry>) -> Seq<EntrySpec> {
    v.map_values(|e: StartupEntry| e@)
}

/// A file found in an autostart directory: its name (lossily decoded),
/// whether that name is valid UTF-8, and its text if it could be read as
/// UTF-8.
#[derive(Clone, Debug)]
pub struct DesktopFile {
    pub file_name: String,
    pub name_is_utf8: bool,
    pub content: Option<String>,
}

/// A found file as text.
pub struct FileSpec {
    pub file_name: Seq<char>,
    pub name_is_utf8: bool,
    pub content: Option<Seq<char>>,
}

impl View for DesktopFile {
    type V = FileSpec;

    open spec fn view(&self) -> FileSpec {
        FileSpec {
            file_name: self.file_name@,
            name_is_utf8: self.name_is_utf8,
            content: match self.content {
                Some(c) => Some(c@),
                None => None,
            },
        }
    }
}

/// The views of a sequence of found files.
pub open spec fn files_view(v: Seq<DesktopFile>) -> Seq<FileSpec> {
    v.map_values(|f: DesktopFile| f@)
}

/// Whether a file name has the extension `desktop`, as `Path::extension`
/// reads it: it ends with `.desktop` and something precedes that dot.
pub open spec fn has_desktop_extension(name: Seq<char>) -> bool {
    name.len() > 8 && name.subrange(name.len() - 8, name.len() as int) == ".desktop"@
}

/// A `.desktop` file name without its extension.
pub open spec fn stem(name: Seq<char>) -> Seq<char> {
    name.subrange(0, name.len() - 8)
}

/// What a found file gives: nothing unless it is a readable `.desktop`
/// file with a command.
pub open spec fn file_entry(f: FileSpec) -> Option<(Seq<char>, Seq<char>, bool)> {
    if !has_desktop_extension(f.file_name) {
        None
    } else {
        match f.content {
            None => None,
            Some(c) => desktop_spec(c, stem(f.file_name)),
        }
    }
}

/// The entries of the user's autostart files, in order.
pub open spec fn user_entries(fs: Seq<FileSpec>) -> Seq<EntrySpec>
    decreases fs.len(),
{
    if fs.len() == 0 {
        seq![]
    } else {
        match file_entry(fs.last()) {
            Some((n, c, en)) => user_entries(fs.drop_last()).push(
                EntrySpec { name: n, command: c, source: StartupSource::UserAutostart, enabled: en },
            ),
            None => user_entries(fs.drop_last()),
        }
    }
}

/// Whether a system file is masked by a user `.desktop` file of the same
/// (UTF-8) name.
pub open spec fn masked(f: FileSpec, user: Seq<FileSpec>) -> bool {
    f.name_is_utf8 && exists|j: int|
        0 <= j < user.len() && #[trigger] user[j].name_is_utf8 && has_desktop_extension(
            user[j].file_name,
        ) && user[j].file_name == f.file_name
}

/// The entries of the system autostart files not masked by user files, in
/// order.
pub open spec fn system_entries(fs: Seq<FileSpec>, user: Seq<FileSpec>) -> Seq<EntrySpec>
    decreases fs.len(),
{
    if fs.len() == 0 {
        seq![]
    } else {
        let f = fs.last();
        let rest = system_entries(fs.drop_last(), user);
        if masked(f, user) {
            rest
        } else {
            match file_entry(f) {
                Some((n, c, en)) => rest.push(
                    EntrySpec {
                        name: n,
                        command: c,
                        source: StartupSource::SystemAutostart,
                        enabled: en,
                    },
                ),
                None => rest,
            }
        }
    }
}

/// The startup entries on Linux: the user's first (they take precedence),
/// then the system's that no user file of the same name masks.
pub open spec fn xdg_entries(user: Seq<FileSpec>, system: Seq<FileSpec>) -> Seq<EntrySpec> {
    user_entries(user) + system_entries(system, user)
}

/// Whether a file name has the extension `desktop`.
fn desktop_extension(name: &[char]) -> (r: bool)
    ensures
        r == has_desktop_extension(name@),
{
    if name.len() <= 8 {
        return false;
    }
    let tail = sub_chars(name, name.len() - 8, name.len());
    chars_eq_str(tail.as_slice(), ".desktop")
}

/// What a found file gives.
fn entry_of_file(f: &DesktopFile) -> (r: Option<(String, String, bool)>)
    ensures
        match r {
            Some((n, c, en)) => file_entry(f@) == Some((n@, c@, en)),
            None => file_entry(f@) is None,
        },
{
    let name = chars_of(f.file_name.as_str());
    if !desktop_extension(name.as_slice()) {
        return None;
    }
    match &f.content {
        None => None,
        Some(c) => {
            let st = sub_chars(name.as_slice(), 0, name.len() - 8);
            let s = string_of(st.as_slice());
            parse_desktop_file(c.as_str(), s.as_str())
        },
    }
}

/// Whether a system file is masked by a user file.
fn is_masked(f: &DesktopFile, user: &[DesktopFile]) -> (r: bool)
    ensures
        r == masked(f@, files_view(user@)),
{
    if !f.name_is_utf8 {
        return false;
    }
    let name = chars_of(f.file_name.as_str());
    let mut j: usize = 0;
    while j < user.len()
        invariant
            j <= user.len(),
            f.name_is_utf8,
            name@ == f.file_name@,
            forall|k: int|
                0 <= k < j ==> !(#[trigger] user@[k].name_is_utf8 && has_desktop_extension(
                    user@[k].file_name@,
                ) && user@[k].file_name@ == f.file_name@),
        decreases user.len() - j,
    {
        let u = chars_of(user[j].file_name.as_str());
        if user[j].name_is_utf8 && desktop_extension(u.as_slice()) && crate::text::chars_eq(
            u.as_slice(),
            name.as_slice(),
        ) {
            assert(files_view(user@)[j as int] == user@[j as int]@);
            assert(files_view(user@)[j as int].name_is_utf8 && has_desktop_extension(
                files_view(user@)[j as int].file_name,
            ) && files_view(user@)[j as int].file_name == f@.file_name);
            return true;
        }
        j += 1;
    }
    assert forall|k: int| 0 <= k < user.len() implies !(#[trigger] files_view(
        user@,
    )[k].name_is_utf8 && has_desktop_extension(files_view(user@)[k].file_name)
        && files_view(user@)[k].file_name == f.file_name@) by {
        assert(files_view(user@)[k] == user@[k]@);
    }
    false
}

/// The startup entries on Linux, from the files found in the user's
/// autostart directory and then in the system ones (in directory order).
pub fn xdg_fetch_entries(user: &[DesktopFile], system: &[DesktopFile]) -> (r: Vec<StartupEntry>)
    ensures
        entries_view(r@) == xdg_entries(files_view(user@), files_view(system@)),
{
    let mut r: Vec<StartupEntry> = Vec::new();
    let mut i: usize = 0;
    assert(entries_view(r@) =~= seq![]);
    while i < user.len()
        invariant
            i <= user.len(),
            entries_view(r@) == user_entries(files_view(user@).take(i as int)),
        decreases user.len() - i,
    {
        assert(files_view(user@).take(i + 1).drop_last() =~= files_view(user@).take(i as int));
        assert(files_view(user@).take(i + 1).last() == user@[i as int]@);
        match entry_of_file(&user[i]) {
            Some((n, c, en)) => {
                r.push(
                    StartupEntry {
                        name: n,
                        command: c,
                        source: StartupSource::UserAutostart,
                        enabled: en,
                    },
                );
                assert(entries_view(r@) =~= user_entries(files_view(user@).take(i + 1)));
            },
            None => {},
        }
        i += 1;
    }
    assert(files_view(user@).take(user.len() as int) =~= files_view(user@));
    let ghost ue = entries_view(r@);
    let mut k: usize = 0;
    assert(entries_view(r@) =~= ue + system_entries(files_view(system@).take(0), files_view(user@)));
    while k < system.len()
        invariant
            k <= system.len(),
            entries_view(r@) == ue + system_entries(
                files_view(system@).take(k as int),
                files_view(user@),
            ),
        decreases system.len() - k,
    {
        assert(files_view(system@).take(k + 1).drop_last() =~= files_view(system@).take(k as int));
        assert(files_view(system@).take(k + 1).last() == system@[k as int]@);
        if !is_masked(&system[k], user) {
            match entry_of_file(&system[k]) {
                Some((n, c, en)) => {
                    let ghost before = entries_view(r@);
                    r.push(
                        StartupEntry {
                            name: n,
                            command: c,
                            source: StartupSource::SystemAutostart,
                            enabled: en,
                        },
                    );
                    let ghost fk = files_view(system@).take(k + 1).last();
                    assert(!masked(fk, files_view(user@)));
                    assert(file_entry(fk) == Some((n@, c@, en)));
                    assert(entries_view(r@) =~= before.push(
                        EntrySpec {
                            name: n@,
                            command: c@,
                            source: StartupSource::SystemAutostart,
                            enabled: en,
                        },
                    ));
                    assert(entries_view(r@) =~= ue + system_entries(
                        files_view(system@).take(k + 1),
                        files_view(user@),
                    ));
                },
                None => {},
            }
        }
        k += 1;
    }
    assert(files_view(system@).take(system.len() as int) =~= files_view(system@));
    r
}


/// A value of a `Run` registry key: the entry's name and its command.
#[derive(Clone, Debug)]
pub struct RegistryValue {
    pub name: String,
    pub command: String,
}

/// The entries that registry values give, all from `source` and all
/// enabled or all disabled.
pub open spec fn registry_values_entries(
    vs: Seq<RegistryValue>,
    source: StartupSource,
    enabled: bool,
) -> Seq<EntrySpec> {
    vs.map_values(
        |v: RegistryValue|
            EntrySpec { name: v.name@, command: v.command@, source: source, enabled: enabled },
    )
}

/// The startup entries on Windows: the current user's `Run` values, then
/// the machine's, then the values this application moved aside when
/// disabling them (current user, disabled).
pub open spec fn registry_entries_spec(
    user_run: Seq<RegistryValue>,
    machine_run: Seq<RegistryValue>,
    disabled: Seq<RegistryValue>,
) -> Seq<EntrySpec> {
    registry_values_entries(user_run, StartupSource::UserRegistry, true)
        + registry_values_entries(machine_run, StartupSource::MachineRegistry, true)
        + registry_values_entries(disabled, StartupSource::UserRegistry, false)
}

/// Appends the entries of registry values to `out`.
fn push_registry_values(
    out: &mut Vec<StartupEntry>,
    vs: &[RegistryValue],
    source: StartupSource,
    enabled: bool,
)
    ensures
        entries_view(final(out)@) == entries_view(old(out)@) + registry_values_entries(
            vs@,
            source,
            enabled,
        ),
{
    let ghost start = out@;
    let mut i: usize = 0;
    while i < vs.len()
        invariant
            i <= vs.len(),
            out@.len() == start.len() + i,
            forall|j: int| 0 <= j < start.len() ==> #[trigger] out@[j] == start[j],
            forall|j: int|
                0 <= j < i ==> (#[trigger] out@[start.len() + j])@ == (EntrySpec {
                    name: vs@[j].name@,
                    command: vs@[j].command@,
                    source: source,
                    enabled: enabled,
                }),
        decreases vs.len() - i,
    {
        out.push(
            StartupEntry {
                name: vs[i].name.clone(),
                command: vs[i].command.clone(),
                source,
                enabled,
            },
        );
        i += 1;
    }
    assert(entries_view(out@) =~= entries_view(start) + registry_values_entries(
        vs@,
        source,
        enabled,
    )) by {
        assert forall|j: int| 0 <= j < out@.len() implies #[trigger] entries_view(out@)[j] == (
        entries_view(start) + registry_values_entries(vs@, source, enabled))[j] by {
            if j >= start.len() {
                assert(out@[start.len() + (j - start.len())] == out@[j]);
            }
        }
    }
}

/// The startup entries on Windows, from the values of the two `Run` keys
/// and of this application's store of disabled entries.
pub fn registry_fetch_entries(
    user_run: &[RegistryValue],
    machine_run: &[RegistryValue],
    disabled: &[RegistryValue],
) -> (r: Vec<StartupEntry>)
    ensures
        entries_view(r@) == registry_entries_spec(user_run@, machine_run@, disabled@),
{
    let mut r: Vec<StartupEntry> = Vec::new();
    assert(entries_view(r@) =~= seq![]);
    push_registry_values(&mut r, user_run, StartupSource::UserRegistry, true);
    push_registry_values(&mut r, machine_run, StartupSource::MachineRegistry, true);
    push_registry_values(&mut r, disabled, StartupSource::UserRegistry, false);
    assert(entries_view(r@) =~= registry_entries_spec(user_run@, machine_run@, disabled@));
    r
}

/// What a platform's startup mechanisms hold, as read from disk or from the
/// registry.
pub enum StartupListing {
    Xdg { user: Vec<DesktopFile>, system: Vec<DesktopFile> },
    Registry { user_run: Vec<RegistryValue>, machine_run: Vec<RegistryValue>, disabled: Vec<RegistryValue> },
    Unsupported,
}

/// The entries that a listing gives.
pub open spec fn listing_entries(l: StartupListing) -> Seq<EntrySpec> {
    match l {
        StartupListing::Xdg { user, system } => xdg_entries(files_view(user@), files_view(system@)),
        StartupListing::Registry { user_run, machine_run, disabled } => registry_entries_spec(
            user_run@,
            machine_run@,
            disabled@,
        ),
        StartupListing::Unsupported => seq![],
    }
}

/// The startup entries that a listing gives.
pub fn fetch_entries(listing: &StartupListing) -> (r: Vec<StartupEntry>)
    ensures
        entries_view(r@) == listing_entries(*listing),
{
    match listing {
        StartupListing::Xdg { user, system } => xdg_fetch_entries(user.as_slice(), system.as_slice()),
        StartupListing::Registry { user_run, machine_run, disabled } => registry_fetch_entries(
            user_run.as_slice(),
            machine_run.as_slice(),
            disabled.as_slice(),
        ),
        StartupListing::Unsupported => {
            let r: Vec<StartupEntry> = Vec::new();
            assert(entries_view(r@) =~= seq![]);
            r
        },
    }
}

/// The startup entries as last listed.
pub struct StartupMonitor {
    entries: Vec<StartupEntry>,
}

impl View for StartupMonitor {
    type V = Seq<EntrySpec>;

    closed spec fn view(&self) -> Seq<EntrySpec> {
        entries_view(self.entries@)
    }
}

impl StartupMonitor {
    /// A monitor holding the entries of a first listing.
    pub fn new(listing: &StartupListing) -> (s: Self)
        ensures
            s@ == listing_entries(*listing),
    {
        let mut s = StartupMonitor { entries: Vec::new() };
        s.refresh(listing);
        s
    }

    /// Replaces the entries with those of a new listing.
    pub fn refresh(&mut self, listing: &StartupListing)
        ensures
            final(self)@ == listing_entries(*listing),
    {
        self.entries = fetch_entries(listing);
    }

    /// The entries, in listing order.
    pub fn entries(&self) -> (r: &[StartupEntry])
        ensures
            entries_view(r@) == self@,
    {
        self.entries.as_slice()
    }
}

// ---------------------------------------------------------------------
// Which file or key an action applies to
// ---------------------------------------------------------------------

/// The index of the first found file that is a `.desktop` file whose
/// entry has the given name, or -1.
pub open spec fn find_named(fs: Seq<FileSpec>, name: Seq<char>) -> int
    decreases fs.len(),
{
    if fs.len() == 0 {
        -1
    } else if file_entry(fs[0]) matches Some((n, _, _)) && n == name {
        0
    } else {
        let r = find_named(fs.drop_first(), name);
        if r < 0 {
            -1
        } else {
            r + 1
        }
    }
}

proof fn lemma_find_named(fs: Seq<FileSpec>, name: Seq<char>, i: int)
    requires
        0 <= i <= fs.len(),
        forall|j: int| 0 <= j < i ==> !(file_entry(#[trigger] fs[j]) matches Some((n, _, _)) && n == name),
        i == fs.len() || (file_entry(fs[i]) matches Some((n, _, _)) && n == name),
    ensures
        find_named(fs, name) == (if i == fs.len() {
            -1
        } else {
            i
        }),
    decreases i,
{
    if i > 0 {
        assert forall|j: int| 0 <= j < i - 1 implies !(file_entry(
            #[trigger] fs.drop_first()[j],
        ) matches Some((n, _, _)) && n == name) by {
            assert(fs.drop_first()[j] == fs[j + 1]);
        }
        if i < fs.len() {
            assert(fs.drop_first()[i - 1] == fs[i]);
        }
        lemma_find_named(fs.drop_first(), name, i - 1);
    }
}

/// The first found `.desktop` file whose entry has the given name.
pub fn find_desktop_file(files: &[DesktopFile], name: &str) -> (r: Option<usize>)
    ensures
        match r {
            Some(i) => i < files.len() && find_named(files_view(files@), name@) == i,
            None => find_named(files_view(files@), name@) == -1,
        },
{
    let ghost fs = files_view(files@);
    let mut i: usize = 0;
    while i < files.len()
        invariant
            i <= files.len(),
            fs == files_view(files@),
            forall|j: int|
                0 <= j < i ==> !(file_entry(#[trigger] fs[j]) matches Some((n, _, _)) && n == name@),
        decreases files.len() - i,
    {
        assert(fs[i as int] == files@[i as int]@);
        match entry_of_file(&files[i]) {
            Some((n, _, _)) => {
                let nc = chars_of(n.as_str());
                if chars_eq_str(nc.as_slice(), name) {
                    proof {
                        lemma_find_named(fs, name@, i as int);
                    }
                    return Some(i);
                }
            },
            None => {},
        }
        i += 1;
    }
    proof {
        lemma_find_named(fs, name@, i as int);
    }
    None
}

/// Which file enabling or disabling an entry rewrites: a user file in
/// place, or a user copy (same file name) of a system file, which masks it.
#[derive(Clone, Copy, Debug, PartialEq, Eq, Structural)]
pub enum EnableTarget {
    UserFile(usize),
    CopyOfSystemFile(usize),
}

/// The message when no user `.desktop` file has the name.
pub open spec fn no_user_file_message(name: Seq<char>) -> Seq<char> {
    "Fichier .desktop introuvable pour \""@ + name + "\"."@
}

/// The message when no system `.desktop` file has the name.
pub open spec fn no_system_file_message(name: Seq<char>) -> Seq<char> {
    "Fichier .desktop système introuvable pour \""@ + name + "\"."@
}

/// The message for a registry source on Linux.
pub open spec fn not_linux_message() -> Seq<char> {
    "Source non applicable sur Linux."@
}

/// Which file enabling or disabling the entry `name` of `source` rewrites,
/// or why none is.
pub open spec fn enable_target_spec(
    name: Seq<char>,
    source: StartupSource,
    user: Seq<FileSpec>,
    system: Seq<FileSpec>,
) -> Result<EnableTarget, Seq<char>> {
    match source {
        StartupSource::UserAutostart => {
            let i = find_named(user, name);
            if i < 0 {
                Err(no_user_file_message(name))
            } else {
                Ok(EnableTarget::UserFile(i as usize))
            }
        },
        StartupSource::SystemAutostart => {
            let i = find_named(system, name);
            if i < 0 {
                Err(no_system_file_message(name))
            } else {
                Ok(EnableTarget::CopyOfSystemFile(i as usize))
            }
        },
        _ => Err(not_linux_message()),
    }
}

/// `"<prefix><name><suffix>"`.
fn quoted_message(prefix: &str, name: &str, suffix: &str) -> (r: String)
    ensures
        r@ == prefix@ + name@ + suffix@,
{
    let mut m = String::from_str(prefix);
    m.append(name);
    m.append(suffix);
    m
}

/// Which file enabling or disabling the entry `name` of `source` rewrites
/// on Linux, or why none is.
pub fn xdg_enable_target(
    name: &str,
    source: StartupSource,
    user: &[DesktopFile],
    system: &[DesktopFile],
) -> (r: Result<EnableTarget, String>)
    ensures
        match r {
            Ok(t) => enable_target_spec(name@, source, files_view(user@), files_view(system@)) == Ok::<EnableTarget, Seq<char>>(t),
            Err(e) => enable_target_spec(name@, source, files_view(user@), files_view(system@)) == Err::<EnableTarget, Seq<char>>(e@),
        },
{
    match source {
        StartupSource::UserAutostart => match find_desktop_file(user, name) {
            Some(i) => Ok(EnableTarget::UserFile(i)),
            None => Err(quoted_message("Fichier .desktop introuvable pour \"", name, "\".")),
        },
        StartupSource::SystemAutostart => match find_desktop_file(system, name) {
            Some(i) => Ok(EnableTarget::CopyOfSystemFile(i)),
            None => Err(quoted_message("Fichier .desktop système introuvable pour \"", name, "\".")),
        },
        _ => Err(String::from_str("Source non applicable sur Linux.")),
    }
}

/// The message when an entry cannot be removed on Linux.
pub open spec fn xdg_removal_refused() -> Seq<char> {
    "Seules les entrées utilisateur peuvent être supprimées (désactive les entrées système à la place)."@
}

/// Which user file removing the entry `name` of `source` deletes on Linux:
/// only user entries found by name can be removed.
pub fn xdg_removal_target(name: &str, source: StartupSource, user: &[DesktopFile]) -> (r: Result<
    usize,
    String,
>)
    ensures
        match r {
            Ok(i) => source == StartupSource::UserAutostart && find_named(files_view(user@), name@)
                == i,
            Err(e) => e@ == xdg_removal_refused() && (source != StartupSource::UserAutostart
                || find_named(files_view(user@), name@) == -1),
        },
{
    let found = match source {
        StartupSource::UserAutostart => find_desktop_file(user, name),
        _ => None,
    };
    match found {
        Some(i) => Ok(i),
        None => Err(
            String::from_str(
                "Seules les entrées utilisateur peuvent être supprimées (désactive les entrées système à la place).",
            ),
        ),
    }
}

/// A registry hive.
#[derive(Clone, Copy, Debug, PartialEq, Eq, Structural)]
pub enum Hive {
    CurrentUser,
    LocalMachine,
}

/// The message for an autostart source on Windows.
pub open spec fn not_windows_message() -> Seq<char> {
    "Source non applicable sur Windows."@
}

/// The hive whose `Run` key holds the entries of `source` on Windows.
pub fn registry_hive(source: StartupSource) -> (r: Result<Hive, String>)
    ensures
        match source {
            StartupSource::UserRegistry => r == Ok::<Hive, String>(Hive::CurrentUser),
            StartupSource::MachineRegistry => r == Ok::<Hive, String>(Hive::LocalMachine),
            _ => r matches Err(e) && e@ == not_windows_message(),
        },
{
    match source {
        StartupSource::UserRegistry => Ok(Hive::CurrentUser),
        StartupSource::MachineRegistry => Ok(Hive::LocalMachine),
        _ => Err(String::from_str("Source non applicable sur Windows.")),
    }
}

/// The message when an entry cannot be removed on Windows.
pub open spec fn registry_removal_refused() -> Seq<char> {
    "Seules les entrées HKCU (utilisateur) peuvent être supprimées via cette application."@
}

/// Whether an entry of `source` may be removed on Windows: only the
/// current user's may.
pub fn registry_removal_allowed(source: StartupSource) -> (r: Result<(), String>)
    ensures
        match r {
            Ok(()) => source == StartupSource::UserRegistry,
            Err(e) => source != StartupSource::UserRegistry && e@ == registry_removal_refused(),
        },
{
    match source {
        StartupSource::UserRegistry => Ok(()),
        _ => Err(
            String::from_str(
                "Seules les entrées HKCU (utilisateur) peuvent être supprimées via cette application.",
            ),
        ),
    }
}

// ---------------------------------------------------------------------
// Adding an entry
// ---------------------------------------------------------------------

/// Whether a character is kept in a file name: alphanumeric, `-` or `_`.
pub open spec fn safe_char(c: char) -> bool {
    alphanumeric(c) || c == '-' || c == '_'
}

/// The characters of `s` kept in a file name, in order.
pub open spec fn safe_chars(s: Seq<char>) -> Seq<char>
    decreases s.len(),
{
    if s.len() == 0 {
        seq![]
    } else if safe_char(s.last()) {
        safe_chars(s.drop_last()).push(s.last())
    } else {
        safe_chars(s.drop_last())
    }
}

/// The file name of an added entry: the name's safe characters (or
/// `systemmonitor-entry` if none), with the extension `.desktop`.
pub open spec fn desktop_file_name_spec(name: Seq<char>) -> Seq<char> {
    let s = safe_chars(name);
    (if s.len() == 0 {
        "systemmonitor-entry"@
    } else {
        s
    }) + ".desktop"@
}

/// The file name of an added entry.
pub fn desktop_file_name(name: &str) -> (r: String)
    ensures
        r@ == desktop_file_name_spec(name@),
{
    let cs = chars_of(name);
    let mut s: Vec<char> = Vec::new();
    let mut i: usize = 0;
    while i < cs.len()
        invariant
            i <= cs.len(),
            cs@ == name@,
            s@ == safe_chars(cs@.take(i as int)),
        decreases cs.len() - i,
    {
        assert(cs@.take(i + 1).drop_last() =~= cs@.take(i as int));
        let c = cs[i];
        if is_alphanumeric(c) || c == '-' || c == '_' {
            s.push(c);
        }
        i += 1;
    }
    assert(cs@.take(cs.len() as int) =~= cs@);
    let mut r = if s.len() == 0 {
        String::from_str("systemmonitor-entry")
    } else {
        string_of(s.as_slice())
    };
    r.append(".desktop");
    r
}

/// The text of an added entry's `.desktop` file.
pub open spec fn desktop_entry_spec(name: Seq<char>, command: Seq<char>) -> Seq<char> {
    "[Desktop Entry]\nType=Application\nName="@ + name + "\nExec="@ + command
        + "\nHidden=false\nX-GNOME-Autostart-enabled=true\n"@
}

/// The text of an added entry's `.desktop` file: an application, enabled,
/// with the given name and command.
pub fn desktop_entry_content(name: &str, command: &str) -> (r: String)
    ensures
        r@ == desktop_entry_spec(name@, command@),
{
    let mut r = String::from_str("[Desktop Entry]\nType=Application\nName=");
    r.append(name);
    r.append("\nExec=");
    r.append(command);
    r.append("\nHidden=false\nX-GNOME-Autostart-enabled=true\n");
    r
}


// ---------------------------------------------------------------------
// Autostart directories
// ---------------------------------------------------------------------

/// `base` joined with the relative path `rel`, as `Path::join` does on Unix:
/// a `/` goes between them unless `base` is empty or already ends with one.
pub open spec fn join_path(base: Seq<char>, rel: Seq<char>) -> Seq<char> {
    if base.len() == 0 {
        rel
    } else if base.last() == '/' {
        base + rel
    } else {
        base + "/"@ + rel
    }
}

/// `base` joined with the relative path `rel`.
pub fn join_path_str(base: &str, rel: &str) -> (r: String)
    ensures
        r@ == join_path(base@, rel@),
{
    let b = chars_of(base);
    let mut r = String::from_str(base);
    if b.len() == 0 {
        return String::from_str(rel);
    }
    if b[b.len() - 1] != '/' {
        r.append("/");
    }
    r.append(rel);
    r
}

/// The user's autostart directory: `$XDG_CONFIG_HOME/autostart`, else
/// `$HOME/.config/autostart`, else `./.config/autostart` (an unset or
/// non-Unicode variable counts as absent).
pub open spec fn user_autostart_dir_spec(
    xdg_config_home: Option<Seq<char>>,
    home: Option<Seq<char>>,
) -> Seq<char> {
    let base = match xdg_config_home {
        Some(x) => x,
        None => join_path(
            match home {
                Some(h) => h,
                None => "."@,
            },
            ".config"@,
        ),
    };
    join_path(base, "autostart"@)
}

/// The view of an optional string slice.
pub open spec fn opt_str(o: Option<&str>) -> Option<Seq<char>> {
    match o {
        Some(s) => Some(s@),
        None => None,
    }
}

/// The user's autostart directory, from the values of `XDG_CONFIG_HOME` and
/// `HOME`.
pub fn user_autostart_dir(xdg_config_home: Option<&str>, home: Option<&str>) -> (r: String)
    ensures
        r@ == user_autostart_dir_spec(opt_str(xdg_config_home), opt_str(home)),
{
    let base = match xdg_config_home {
        Some(x) => String::from_str(x),
        None => {
            let h = match home {
                Some(h) => h,
                None => ".",
            };
            join_path_str(h, ".config")
        },
    };
    join_path_str(base.as_str(), "autostart")
}

/// The pieces of `s` between occurrences of `c`, as `str::split` gives them
/// (empty pieces included; one empty piece for an empty text).
pub open spec fn split_fold(s: Seq<char>, c: char) -> (Seq<Seq<char>>, Seq<char>)
    decreases s.len(),
{
    if s.len() == 0 {
        (seq![], seq![])
    } else {
        let (done, cur) = split_fold(s.drop_last(), c);
        if s.last() == c {
            (done.push(cur), seq![])
        } else {
            (done, cur.push(s.last()))
        }
    }
}

/// The pieces of `s` between occurrences of `c`.
pub open spec fn split_char(s: Seq<char>, c: char) -> Seq<Seq<char>> {
    let (done, cur) = split_fold(s, c);
    done.push(cur)
}

/// The system autostart directories: each directory of `XDG_CONFIG_DIRS`
/// (else `/etc/xdg`) joined with `autostart`.
pub open spec fn system_autostart_dirs_spec(xdg_config_dirs: Option<Seq<char>>) -> Seq<Seq<char>> {
    let dirs = match xdg_config_dirs {
        Some(d) => d,
        None => "/etc/xdg"@,
    };
    split_char(dirs, ':').map_values(|d: Seq<char>| join_path(d, "autostart"@))
}

/// The system autostart directories, from the value of `XDG_CONFIG_DIRS`.
pub fn system_autostart_dirs(xdg_config_dirs: Option<&str>) -> (r: Vec<String>)
    ensures
        crate::launcher::strings_view(r@) == system_autostart_dirs_spec(opt_str(xdg_config_dirs)),
{
    let dirs = match xdg_config_dirs {
        Some(d) => d,
        None => "/etc/xdg",
    };
    let cs = chars_of(dirs);
    let mut pieces: Vec<Vec<char>> = Vec::new();
    let mut cur: Vec<char> = Vec::new();
    let mut i: usize = 0;
    while i < cs.len()
        invariant
            i <= cs.len(),
            cs@ == dirs@,
            (vv(pieces@), cur@) == split_fold(cs@.take(i as int), ':'),
        decreases cs.len() - i,
    {
        assert(cs@.take(i + 1).drop_last() =~= cs@.take(i as int));
        if cs[i] == ':' {
            pieces.push(cur);
            cur = Vec::new();
            assert(vv(pieces@) =~= split_fold(cs@.take(i + 1), ':').0);
        } else {
            cur.push(cs[i]);
        }
        i += 1;
    }
    assert(cs@.take(cs.len() as int) =~= cs@);
    pieces.push(cur);
    assert(vv(pieces@) =~= split_char(dirs@, ':'));
    let mut r: Vec<String> = Vec::new();
    let mut j: usize = 0;
    while j < pieces.len()
        invariant
            j <= pieces.len(),
            r.len() == j,
            forall|k: int|
                0 <= k < j ==> (#[trigger] r@[k])@ == join_path(pieces@[k]@, "autostart"@),
        decreases pieces.len() - j,
    {
        let d = string_of(pieces[j].as_slice());
        r.push(join_path_str(d.as_str(), "autostart"));
        j += 1;
    }
    assert(crate::launcher::strings_view(r@) =~= system_autostart_dirs_spec(opt_str(xdg_config_dirs)));
    r
}


// ---------------------------------------------------------------------
// What is written reads back
// ---------------------------------------------------------------------

proof fn lemma_not_starts(s: Seq<char>, p: Seq<char>)
    requires
        p.len() > 0,
        s.len() > 0,
        s[0] != p[0],
    ensures
        !starts_with(s, p),
{
    if starts_with(s, p) {
        assert(s.subrange(0, p.len() as int)[0] == s[0]);
    }
}

proof fn lemma_starts_concat(p: Seq<char>, s: Seq<char>)
    ensures
        starts_with(p + s, p),
        after(p + s, p) == s,
{
    assert((p + s).subrange(0, p.len() as int) =~= p);
    assert(after(p + s, p) =~= s);
}

proof fn lemma_plain_concat(p: Seq<char>, s: Seq<char>)
    requires
        !p.contains('\n'),
        !s.contains('\n'),
        p.len() > 0,
        p.last() != '\r',
        s.len() == 0 || s.last() != '\r',
    ensures
        plain_line(p + s),
        (p + s).len() > 0,
{
    let t = p + s;
    if t.contains('\n') {
        let k = choose|k: int| 0 <= k < t.len() && t[k] == '\n';
        if k < p.len() {
            assert(p[k] == '\n');
        } else {
            assert(s[k - p.len()] == '\n');
        }
    }
    if s.len() == 0 {
        assert(t =~= p);
    } else {
        assert(t.last() == s.last());
    }
}

/// A text that can stand after `Key=` in a `.desktop` line and read back
/// unchanged: no newline, and no whitespace at its end.
pub open spec fn plain_value(v: Seq<char>) -> bool {
    !v.contains('\n') && (v.len() == 0 || !is_ws(v.last()))
}

/// The `.desktop` file written for an added entry reads back as that entry,
/// enabled, whenever its name and command can stand in a line as they are.
pub proof fn law_added_entry_reads_back(name: Seq<char>, command: Seq<char>, stem: Seq<char>)
    requires
        plain_value(name),
        plain_value(command),
    ensures
        desktop_spec(desktop_entry_spec(name, command), stem) == Some((name, command, true)),
{
    reveal_strlit("[Desktop Entry]\nType=Application\nName=");
    reveal_strlit("\nExec=");
    reveal_strlit("\nHidden=false\nX-GNOME-Autostart-enabled=true\n");
    reveal_strlit("[Desktop Entry]");
    reveal_strlit("Type=Application");
    reveal_strlit("Name=");
    reveal_strlit("Exec=");
    reveal_strlit("Hidden=false");
    reveal_strlit("X-GNOME-Autostart-enabled=true");
    reveal_strlit("[");
    reveal_strlit("Hidden=");
    reveal_strlit("X-GNOME-Autostart-enabled=");
    reveal_strlit("true");
    reveal_strlit("false");
    let l1 = "[Desktop Entry]"@;
    let l2 = "Type=Application"@;
    let l3 = "Name="@ + name;
    let l4 = "Exec="@ + command;
    let l5 = "Hidden=false"@;
    let l6 = "X-GNOME-Autostart-enabled=true"@;
    let ls = seq![l1, l2, l3, l4, l5, l6];
    // The text is these six lines.
    reveal_with_fuel(unlines, 7);
    assert(desktop_entry_spec(name, command) =~= unlines(ls));
    assert(!name.contains('\r') || name.len() == 0 || name.last() != '\r');
    lemma_plain_concat("Name="@, name);
    lemma_plain_concat("Exec="@, command);
    assert forall|i: int| 0 <= i < ls.len() implies plain_line(#[trigger] ls[i]) by {
        if i == 0 || i == 1 || i == 4 || i == 5 {
            if ls[i].contains('\n') {
                let k = choose|k: int| 0 <= k < ls[i].len() && ls[i][k] == '\n';
            }
        }
    }
    lemma_lines_unlines(ls);
    // Each line is its own trim.
    lemma_trim_identity(l1);
    lemma_trim_identity(l2);
    lemma_trim_identity(l3);
    lemma_trim_identity(l4);
    lemma_trim_identity(l5);
    lemma_trim_identity(l6);
    lemma_trim_identity("false"@);
    lemma_trim_identity("true"@);
    lemma_starts_concat("Name="@, name);
    lemma_starts_concat("Exec="@, command);
    lemma_starts_concat("Hidden="@, "false"@);
    lemma_starts_concat("X-GNOME-Autostart-enabled="@, "true"@);
    assert("Hidden="@ + "false"@ =~= l5);
    assert("X-GNOME-Autostart-enabled="@ + "true"@ =~= l6);
    assert(l1.subrange(0, 1) =~= "["@);
    assert(starts_with(l1, "["@));
    lemma_not_starts(l2, "["@);
    lemma_not_starts(l3, "["@);
    lemma_not_starts(l4, "["@);
    lemma_not_starts(l5, "["@);
    lemma_not_starts(l6, "["@);
    lemma_not_starts(l2, "Name="@);
    lemma_not_starts(l2, "Exec="@);
    lemma_not_starts(l2, "Hidden="@);
    lemma_not_starts(l2, "X-GNOME-Autostart-enabled="@);
    lemma_not_starts(l4, "Name="@);
    lemma_not_starts(l5, "Name="@);
    lemma_not_starts(l5, "Exec="@);
    lemma_not_starts(l6, "Name="@);
    lemma_not_starts(l6, "Exec="@);
    lemma_not_starts(l6, "Hidden="@);
    // The reader's states line after line.
    let s0 = DesktopState { name: None, command: None, hidden: false, gnome_off: false, in_entry: false };
    let s1 = DesktopState { in_entry: true, ..s0 };
    let s3 = DesktopState { name: Some(name), ..s1 };
    let s4 = DesktopState { command: Some(command), ..s3 };
    assert(ls.take(0) =~= Seq::<Seq<char>>::empty());
    assert(desktop_fold(ls.take(0)) == s0);
    assert(ls.take(1).drop_last() =~= ls.take(0));
    assert(desktop_fold(ls.take(1)) == s1);
    assert(ls.take(2).drop_last() =~= ls.take(1));
    assert(desktop_fold(ls.take(2)) == s1);
    assert(ls.take(3).drop_last() =~= ls.take(2));
    assert(desktop_fold(ls.take(3)) == s3);
    assert(ls.take(4).drop_last() =~= ls.take(3));
    assert(desktop_fold(ls.take(4)) == s4);
    assert(ls.take(5).drop_last() =~= ls.take(4));
    assert(!eq_ignore_ascii_case("false"@, "true"@));
    assert(desktop_fold(ls.take(5)) == s4);
    assert(ls.take(6).drop_last() =~= ls.take(5));
    assert(!eq_ignore_ascii_case("true"@, "false"@));
    assert(desktop_fold(ls.take(6)) == s4);
    assert(ls.take(6) =~= ls);
}


proof fn lemma_trim_keeps_prefix(l: Seq<char>, p: Seq<char>)
    requires
        starts_with(trim(l), p),
    ensures
        starts_with(trim_start(l), p),
{
    lemma_trim_end_prefix(trim_start(l));
    let t = trim_start(l);
    let u = trim_end(t);
    assert(u.subrange(0, p.len() as int) =~= t.subrange(0, p.len() as int));
}

/// Trimming the end of a text keeps a prefix that ends in a non-space.
proof fn lemma_trim_end_keeps_prefix(t: Seq<char>, p: Seq<char>)
    requires
        starts_with(t, p),
        p.len() > 0,
        !is_ws(p.last()),
    ensures
        starts_with(trim_end(t), p),
    decreases t.len(),
{
    if t.len() > 0 && is_ws(t.last()) {
        if t.len() == p.len() {
            assert(t.subrange(0, p.len() as int)[p.len() - 1] == t.last());
        }
        assert(t.drop_last().subrange(0, p.len() as int) =~= t.subrange(0, p.len() as int));
        lemma_trim_end_keeps_prefix(t.drop_last(), p);
    }
}

/// A text that starts with `p` starts with `p`'s first character.
proof fn lemma_first_char(x: Seq<char>, p: Seq<char>)
    requires
        starts_with(x, p),
        p.len() > 0,
    ensures
        x[0] == p[0],
{
    assert(x.subrange(0, p.len() as int)[0] == x[0]);
}

/// Where `first_where` points: at the first line satisfying `f`, or -1
/// when none does.
proof fn lemma_first_where_found(ls: Seq<Seq<char>>, f: spec_fn(Seq<char>) -> bool)
    ensures
        -1 <= first_where(ls, f) < ls.len(),
        first_where(ls, f) >= 0 ==> f(ls[first_where(ls, f)]),
        first_where(ls, f) < 0 ==> forall|j: int| 0 <= j < ls.len() ==> !f(#[trigger] ls[j]),
    decreases ls.len(),
{
    if ls.len() > 0 && !f(ls[0]) {
        lemma_first_where_found(ls.drop_first(), f);
        let r = first_where(ls.drop_first(), f);
        if r >= 0 {
            assert(ls.drop_first()[r] == ls[r + 1]);
        } else {
            assert forall|j: int| 0 <= j < ls.len() implies !f(#[trigger] ls[j]) by {
                if j > 0 {
                    assert(ls.drop_first()[j - 1] == ls[j]);
                }
            }
        }
    }
}

/// Whether two reader states agree on all but hiddenness.
pub open spec fn same_but_hidden(a: DesktopState, b: DesktopState) -> bool {
    &&& a.name == b.name
    &&& a.command == b.command
    &&& a.gnome_off == b.gnome_off
    &&& a.in_entry == b.in_entry
}

proof fn lemma_step_same_but_hidden(a: DesktopState, b: DesktopState, l: Seq<char>)
    requires
        same_but_hidden(a, b),
        !is_hidden_line(l),
    ensures
        same_but_hidden(desktop_step(a, l), desktop_step(b, l)),
        desktop_step(a, l).hidden == a.hidden,
        desktop_step(b, l).hidden == b.hidden,
{
    if starts_with(trim(l), "Hidden="@) {
        lemma_trim_keeps_prefix(l, "Hidden="@);
    }
}

/// Lines that set no `Hidden=` keep two readers that agree on all but
/// hiddenness in agreement, and leave their hiddenness alone.
proof fn lemma_fold_same_but_hidden(a: Seq<Seq<char>>, b: Seq<Seq<char>>, r: Seq<Seq<char>>)
    requires
        same_but_hidden(desktop_fold(a), desktop_fold(b)),
        forall|i: int| 0 <= i < r.len() ==> !is_hidden_line(#[trigger] r[i]),
    ensures
        same_but_hidden(desktop_fold(a + r), desktop_fold(b + r)),
        desktop_fold(a + r).hidden == desktop_fold(a).hidden,
        desktop_fold(b + r).hidden == desktop_fold(b).hidden,
    decreases r.len(),
{
    if r.len() == 0 {
        assert(a + r =~= a);
        assert(b + r =~= b);
    } else {
        lemma_fold_same_but_hidden(a, b, r.drop_last());
        assert((a + r).drop_last() =~= a + r.drop_last());
        assert((b + r).drop_last() =~= b + r.drop_last());
        assert((a + r).last() == r.last());
        assert((b + r).last() == r.last());
        assert(!is_hidden_line(r[r.len() - 1]));
        lemma_step_same_but_hidden(
            desktop_fold(a + r.drop_last()),
            desktop_fold(b + r.drop_last()),
            r.last(),
        );
    }
}

/// The reader sees the same lines whether or not they end with a carriage
/// return.
proof fn lemma_fold_strip_crs(ls: Seq<Seq<char>>)
    ensures
        desktop_fold(strip_crs(ls)) == desktop_fold(ls),
    decreases ls.len(),
{
    if ls.len() > 0 {
        lemma_fold_strip_crs(ls.drop_last());
        assert(strip_crs(ls).drop_last() =~= strip_crs(ls.drop_last()));
        assert(strip_crs(ls).last() == strip_cr(ls.last()));
        lemma_trim_strip_cr(ls.last());
    }
}

/// Without a `[Desktop Entry]` header the reader never enters that group,
/// and finds no command.
proof fn lemma_no_header_fold(ls: Seq<Seq<char>>)
    requires
        forall|i: int| 0 <= i < ls.len() ==> !is_entry_header(#[trigger] ls[i]),
    ensures
        !desktop_fold(ls).in_entry,
        desktop_fold(ls).command is None,
    decreases ls.len(),
{
    if ls.len() > 0 {
        assert(!is_entry_header(ls[ls.len() - 1]));
        lemma_no_header_fold(ls.drop_last());
    }
}

/// Whether a `.desktop` file's lines hold at most one `Hidden=` line, read
/// inside the `[Desktop Entry]` group.
pub open spec fn single_hidden_in_entry(ls: Seq<Seq<char>>) -> bool {
    &&& forall|i: int, j: int|
        0 <= i < ls.len() && 0 <= j < ls.len() && is_hidden_line(#[trigger] ls[i]) && is_hidden_line(
            #[trigger] ls[j],
        ) ==> i == j
    &&& forall|i: int|
        0 <= i < ls.len() && is_hidden_line(#[trigger] ls[i]) ==> desktop_fold(ls.take(i)).in_entry
}

/// Enabling or disabling a `.desktop` file whose only `Hidden=` line, if
/// any, lies in its `[Desktop Entry]` group gives a file that reads back
/// with the same name and command, disabled if asked, and enabled if asked
/// unless an `X-GNOME-Autostart-enabled=false` line disables it anyway.
#[verifier::spinoff_prover]
#[verifier::rlimit(50)]
pub proof fn law_set_hidden_reads_back(content: Seq<char>, enabled: bool, stem: Seq<char>)
    requires
        single_hidden_in_entry(lines(content)),
        enabled ==> !desktop_fold(lines(content)).gnome_off,
    ensures
        desktop_spec(set_hidden_spec(content, enabled), stem) == match desktop_spec(content, stem) {
            Some((n, c, _)) => Some((n, c, enabled)),
            None => None,
        },
{
    reveal_strlit("[Desktop Entry]");
    reveal_strlit("[");
    reveal_strlit("Hidden=");
    reveal_strlit("Name=");
    reveal_strlit("Exec=");
    reveal_strlit("true");
    reveal_strlit("false");
    reveal_strlit("\n");
    let ls = lines(content);
    let hl = hidden_line(enabled);
    let nls = with_hidden(ls, enabled);
    let v = if enabled {
        "false"@
    } else {
        "true"@
    };
    assert(hl =~= "Hidden="@ + v);
    // The new `Hidden=` line: one line, read as hiding exactly when disabling.
    assert(!hl.contains('\n')) by {
        if hl.contains('\n') {
            let k = choose|k: int| 0 <= k < hl.len() && hl[k] == '\n';
        }
    }
    lemma_trim_identity(hl);
    lemma_trim_identity(v);
    lemma_starts_concat("Hidden="@, v);
    assert(eq_ignore_ascii_case(v, "true"@) == !enabled);
    assert(!starts_with(hl, "["@)) by {
        if starts_with(hl, "["@) {
            lemma_first_char(hl, "["@);
        }
    }
    assert(!starts_with(hl, "Name="@)) by {
        if starts_with(hl, "Name="@) {
            lemma_first_char(hl, "Name="@);
        }
    }
    assert(!starts_with(hl, "Exec="@)) by {
        if starts_with(hl, "Exec="@) {
            lemma_first_char(hl, "Exec="@);
        }
    }
    assert(!is_entry_header(hl)) by {
        assert(hl[0] == 'H');
        if is_entry_header(hl) {
            assert("[Desktop Entry]"@[0] == '[');
        }
    }
    // The new text's lines are the rewritten lines, read the same way.
    lemma_lines_no_newline(content);
    let fh = |l: Seq<char>| is_hidden_line(l);
    let fe = |l: Seq<char>| is_entry_header(l);
    lemma_first_where_found(ls, fh);
    lemma_first_where_found(ls, fe);
    let h = first_where(ls, fh);
    let e = first_where(ls, fe);
    assert forall|i: int| 0 <= i < nls.len() implies !(#[trigger] nls[i]).contains('\n') by {
        if h >= 0 {
            if i != h {
                assert(nls[i] == ls[i]);
            }
        } else if e >= 0 {
            if i < e + 1 {
                assert(nls[i] == ls[i]);
            } else if i > e + 1 {
                assert(nls[i] == ls[i - 1]);
            }
        } else if i < ls.len() {
            assert(nls[i] == ls[i]);
        }
    }
    assert(nls.len() > 0);
    lemma_join_unlines(nls);
    assert("\n"@ =~= seq!['\n']);
    lemma_lines_unlines_cr(nls);
    lemma_fold_strip_crs(nls);
    assert(desktop_fold(lines(set_hidden_spec(content, enabled))) == desktop_fold(nls));
    let s_old = desktop_fold(ls);
    let s_new = desktop_fold(nls);
    if h >= 0 {
        // The `Hidden=` line is replaced in place.
        let p = ls.take(h);
        let r = ls.subrange(h + 1, ls.len() as int);
        assert(ls =~= p.push(ls[h]) + r);
        assert(nls =~= p.push(hl) + r);
        assert(p.push(ls[h]).drop_last() =~= p);
        assert(p.push(hl).drop_last() =~= p);
        assert(desktop_fold(p).in_entry);
        let t = trim(ls[h]);
        lemma_trim_end_keeps_prefix(trim_start(ls[h]), "Hidden="@);
        assert(starts_with(t, "Hidden="@));
        lemma_first_char(t, "Hidden="@);
        assert(!starts_with(t, "["@)) by {
            if starts_with(t, "["@) {
                lemma_first_char(t, "["@);
            }
        }
        assert(!starts_with(t, "Name="@)) by {
            if starts_with(t, "Name="@) {
                lemma_first_char(t, "Name="@);
            }
        }
        assert(!starts_with(t, "Exec="@)) by {
            if starts_with(t, "Exec="@) {
                lemma_first_char(t, "Exec="@);
            }
        }
        assert(same_but_hidden(desktop_fold(p.push(hl)), desktop_fold(p.push(ls[h]))));
        assert(desktop_fold(p.push(hl)).hidden == !enabled);
        assert forall|i: int| 0 <= i < r.len() implies !is_hidden_line(#[trigger] r[i]) by {
            assert(r[i] == ls[h + 1 + i]);
            assert(is_hidden_line(ls[h]));
        }
        lemma_fold_same_but_hidden(p.push(hl), p.push(ls[h]), r);
        assert(same_but_hidden(s_new, s_old) && s_new.hidden == !enabled);
    } else if e >= 0 {
        // A `Hidden=` line is put right after the header.
        let p = ls.take(e + 1);
        let r = ls.subrange(e + 1, ls.len() as int);
        assert(ls =~= p + r);
        assert(nls =~= p.push(hl) + r);
        assert(p.drop_last() =~= ls.take(e));
        assert(p.last() == ls[e]);
        assert(trim(ls[e]) == "[Desktop Entry]"@);
        assert(trim(ls[e]).subrange(0, 1) =~= "["@);
        assert(desktop_fold(p).in_entry);
        assert(p.push(hl).drop_last() =~= p);
        assert(same_but_hidden(desktop_fold(p.push(hl)), desktop_fold(p)));
        assert(desktop_fold(p.push(hl)).hidden == !enabled);
        assert forall|i: int| 0 <= i < r.len() implies !is_hidden_line(#[trigger] r[i]) by {
            assert(r[i] == ls[e + 1 + i]);
        }
        lemma_fold_same_but_hidden(p.push(hl), p, r);
        assert(same_but_hidden(s_new, s_old) && s_new.hidden == !enabled);
    } else {
        // No group to read in: nothing is read, before or after.
        assert forall|i: int| 0 <= i < nls.len() implies !is_entry_header(#[trigger] nls[i]) by {
            if i < ls.len() {
                assert(nls[i] == ls[i]);
            }
        }
        lemma_no_header_fold(ls);
        lemma_no_header_fold(nls);
    }
}


/// A `Key=value` line read back: the line is its own trim and holds the
/// key, then the value.
proof fn lemma_key_line(key: Seq<char>, v: Seq<char>)
    requires
        key.len() > 0,
        !is_ws(key[0]),
        !is_ws(key.last()),
        v.len() == 0 || !is_ws(v.last()),
    ensures
        trim(key + v) == key + v,
        starts_with(key + v, key),
        after(key + v, key) == v,
        (key + v)[0] == key[0],
{
    let l = key + v;
    assert(l[0] == key[0]);
    if v.len() == 0 {
        assert(l =~= key);
    } else {
        assert(l.last() == v.last());
    }
    lemma_trim_identity(l);
    lemma_starts_concat(key, v);
}

/// Inside `[Desktop Entry]`, a `Name=` line sets the entry's name to its
/// value and changes nothing else, whatever lines came before it (an
/// `Exec=` line among them).
pub proof fn law_name_line_sets_name(ls: Seq<Seq<char>>, n: Seq<char>)
    requires
        desktop_fold(ls).in_entry,
        n.len() == 0 || !is_ws(n.last()),
    ensures
        desktop_fold(ls.push("Name="@ + n)) == (DesktopState { name: Some(n), ..desktop_fold(ls) }),
{
    reveal_strlit("Name=");
    reveal_strlit("[");
    let l = "Name="@ + n;
    lemma_key_line("Name="@, n);
    lemma_not_starts(l, "["@);
    assert(ls.push(l).drop_last() =~= ls);
}

/// Inside `[Desktop Entry]`, an `Exec=` line sets the entry's command to
/// its value and changes nothing else, whatever lines came before it (a
/// `Name=` line among them).
pub proof fn law_exec_line_sets_command(ls: Seq<Seq<char>>, e: Seq<char>)
    requires
        desktop_fold(ls).in_entry,
        e.len() == 0 || !is_ws(e.last()),
    ensures
        desktop_fold(ls.push("Exec="@ + e)) == (DesktopState { command: Some(e), ..desktop_fold(ls) }),
{
    reveal_strlit("Exec=");
    reveal_strlit("Name=");
    reveal_strlit("[");
    let l = "Exec="@ + e;
    lemma_key_line("Exec="@, e);
    lemma_not_starts(l, "["@);
    lemma_not_starts(l, "Name="@);
    assert(ls.push(l).drop_last() =~= ls);
}

/// A `[Desktop Entry]` group holding one `Name=n` and one `Exec=e` line
/// reads as the enabled entry `n`, `e`, whichever line comes first.
pub proof fn law_name_and_exec_in_any_order(n: Seq<char>, e: Seq<char>, stem: Seq<char>, exec_first: bool)
    requires
        plain_value(n),
        plain_value(e),
    ensures
        desktop_spec(
            unlines(
                if exec_first {
                    seq!["[Desktop Entry]"@, "Exec="@ + e, "Name="@ + n]
                } else {
                    seq!["[Desktop Entry]"@, "Name="@ + n, "Exec="@ + e]
                },
            ),
            stem,
        ) == Some((n, e, true)),
{
    reveal_strlit("[Desktop Entry]");
    reveal_strlit("Name=");
    reveal_strlit("Exec=");
    reveal_strlit("[");
    let h = "[Desktop Entry]"@;
    let ln = "Name="@ + n;
    let le = "Exec="@ + e;
    let ls = if exec_first {
        seq![h, le, ln]
    } else {
        seq![h, ln, le]
    };
    lemma_plain_concat("Name="@, n);
    lemma_plain_concat("Exec="@, e);
    assert(plain_line(h)) by {
        if h.contains('\n') {
            let k = choose|k: int| 0 <= k < h.len() && h[k] == '\n';
        }
    }
    assert forall|i: int| 0 <= i < ls.len() implies plain_line(#[trigger] ls[i]) by {
        if i == 0 {
            assert(ls[i] == h);
        }
    }
    lemma_lines_unlines(ls);
    // The header opens the group.
    let s0 = DesktopState { name: None, command: None, hidden: false, gnome_off: false, in_entry: false };
    lemma_trim_identity(h);
    assert(h.subrange(0, 1) =~= "["@);
    let p1 = seq![h];
    assert(p1.drop_last() =~= Seq::<Seq<char>>::empty());
    assert(desktop_fold(Seq::<Seq<char>>::empty()) == s0);
    let s1 = desktop_fold(p1);
    assert(s1 == (DesktopState { in_entry: true, ..s0 }));
    if exec_first {
        law_exec_line_sets_command(p1, e);
        let p2 = p1.push(le);
        law_name_line_sets_name(p2, n);
        assert(p2.push(ln) =~= ls);
    } else {
        law_name_line_sets_name(p1, n);
        let p2 = p1.push(ln);
        law_exec_line_sets_command(p2, e);
        assert(p2.push(le) =~= ls);
    }
}

/// A `[Desktop Entry]` group with an `Exec=e` line and no `Name=` line
/// reads as the enabled entry named after the file's stem.
pub proof fn law_stem_names_an_unnamed_entry(e: Seq<char>, stem: Seq<char>)
    requires
        plain_value(e),
    ensures
        desktop_spec(unlines(seq!["[Desktop Entry]"@, "Exec="@ + e]), stem) == Some((stem, e, true)),
{
    reveal_strlit("[Desktop Entry]");
    reveal_strlit("Exec=");
    reveal_strlit("[");
    let h = "[Desktop Entry]"@;
    let le = "Exec="@ + e;
    let ls = seq![h, le];
    lemma_plain_concat("Exec="@, e);
    assert(plain_line(h)) by {
        if h.contains('\n') {
            let k = choose|k: int| 0 <= k < h.len() && h[k] == '\n';
        }
    }
    assert forall|i: int| 0 <= i < ls.len() implies plain_line(#[trigger] ls[i]) by {
        if i == 0 {
            assert(ls[i] == h);
        }
    }
    lemma_lines_unlines(ls);
    let s0 = DesktopState { name: None, command: None, hidden: false, gnome_off: false, in_entry: false };
    lemma_trim_identity(h);
    assert(h.subrange(0, 1) =~= "["@);
    let p1 = seq![h];
    assert(p1.drop_last() =~= Seq::<Seq<char>>::empty());
    assert(desktop_fold(Seq::<Seq<char>>::empty()) == s0);
    assert(desktop_fold(p1) == (DesktopState { in_entry: true, ..s0 }));
    law_exec_line_sets_command(p1, e);
    assert(p1.push(le) =~= ls);
}

/// A system autostart file that no user file masks adds, after the entries
/// already listed, exactly the entry that reading it gives: its `Name=`
/// value (or else its file stem), its command and whether it is enabled.
pub proof fn law_system_file_adds_its_entry(
    user: Seq<FileSpec>,
    system: Seq<FileSpec>,
    f: FileSpec,
    content: Seq<char>,
    n: Seq<char>,
    c: Seq<char>,
    en: bool,
)
    requires
        !masked(f, user),
        has_desktop_extension(f.file_name),
        f.content == Some(content),
        desktop_spec(content, stem(f.file_name)) == Some((n, c, en)),
    ensures
        xdg_entries(user, system.push(f)) == xdg_entries(user, system).push(
            EntrySpec { name: n, command: c, source: StartupSource::SystemAutostart, enabled: en },
        ),
{
    assert(system.push(f).drop_last() =~= system);
    assert(system.push(f).last() == f);
    let x = EntrySpec { name: n, command: c, source: StartupSource::SystemAutostart, enabled: en };
    assert(user_entries(user) + system_entries(system, user).push(x) =~= (user_entries(user)
        + system_entries(system, user)).push(x));
}

/// A user autostart file adds, after the user entries already listed,
/// exactly the entry that reading it gives.
pub proof fn law_user_file_adds_its_entry(
    user: Seq<FileSpec>,
    f: FileSpec,
    content: Seq<char>,
    n: Seq<char>,
    c: Seq<char>,
    en: bool,
)
    requires
        has_desktop_extension(f.file_name),
        f.content == Some(content),
        desktop_spec(content, stem(f.file_name)) == Some((n, c, en)),
    ensures
        user_entries(user.push(f)) == user_entries(user).push(
            EntrySpec { name: n, command: c, source: StartupSource::UserAutostart, enabled: en },
        ),
{
    assert(user.push(f).drop_last() =~= user);
    assert(user.push(f).last() == f);
}

/// On Linux the user's entries come first: every entry listed before the
/// system ones comes from the user's directory, every later one from a
/// system directory.
pub proof fn law_user_entries_first(user: Seq<FileSpec>, system: Seq<FileSpec>)
    ensures
        forall|i: int|
            0 <= i < xdg_entries(user, system).len() ==> (#[trigger] xdg_entries(user, system)[i]).source
                == if i < user_entries(user).len() {
                StartupSource::UserAutostart
            } else {
                StartupSource::SystemAutostart
            },
{
    lemma_user_entries_source(user);
    lemma_system_entries_source(system, user);
}

proof fn lemma_user_entries_source(fs: Seq<FileSpec>)
    ensures
        forall|i: int|
            0 <= i < user_entries(fs).len() ==> (#[trigger] user_entries(fs)[i]).source
                == StartupSource::UserAutostart,
    decreases fs.len(),
{
    if fs.len() > 0 {
        lemma_user_entries_source(fs.drop_last());
    }
}

proof fn lemma_system_entries_source(fs: Seq<FileSpec>, user: Seq<FileSpec>)
    ensures
        forall|i: int|
            0 <= i < system_entries(fs, user).len() ==> (#[trigger] system_entries(fs, user)[i]).source
                == StartupSource::SystemAutostart,
    decreases fs.len(),
{
    if fs.len() > 0 {
        lemma_system_entries_source(fs.drop_last(), user);
    }
}

/// A system file that a user file of the same name masks adds no entry:
/// the user's copy overrides it.
pub proof fn law_masked_system_file_adds_nothing(
    system: Seq<FileSpec>,
    f: FileSpec,
    user: Seq<FileSpec>,
)
    requires
        masked(f, user),
    ensures
        xdg_entries(user, system.push(f)) == xdg_entries(user, system),
{
    assert(system.push(f).drop_last() =~= system);
}

} // verus!
