//! What a path may open with on Windows: a drive, a share, a device or a verbatim prefix.
use vstd::prelude::*;

verus! {

/// The system whose rules a path follows.
#[derive(Clone, Copy, Debug, PartialEq, Eq, Structural)]
pub enum System {
    Unix,
    Windows,
}

/// What separates the names in a path.
#[derive(Clone, Copy, Debug, PartialEq, Eq, Structural)]
pub enum Style {
    /// `/`
    Slash,
    /// `/` and `\`
    Either,
    /// `\`
    Backslash,
}

/// Whether a character separates names.
pub open spec fn separates(c: char, style: Style) -> bool {
    match style {
        Style::Slash => c == '/',
        Style::Either => c == '/' || c == '\\',
        Style::Backslash => c == '\\',
    }
}

/// What separates names by the rules of a system, where nothing else is said.
pub open spec fn usual_style(system: System) -> Style {
    match system {
        System::Unix => Style::Slash,
        System::Windows => Style::Either,
    }
}

/// Whether a character separates names.
pub fn is_separator(c: char, style: Style) -> (yes: bool)
    ensures
        yes == separates(c, style),
{
    match style {
        Style::Slash => c == '/',
        Style::Either => c == '/' || c == '\\',
        Style::Backslash => c == '\\',
    }
}

/// What separates names by the rules of a system, where nothing else is said.
pub fn style_by_default(system: System) -> (style: Style)
    ensures
        style == usual_style(system),
{
    match system {
        System::Unix => Style::Slash,
        System::Windows => Style::Either,
    }
}

/// The position of the first separator in `s`, or the length of `s` where there is none.
pub open spec fn first_separator(s: Seq<char>, style: Style) -> nat
    decreases s.len(),
{
    if s.len() == 0 || separates(s[0], style) {
        0
    } else {
        1 + first_separator(s.drop_first(), style)
    }
}

/// A position with no separator before it is the first one if it holds a separator or ends the
/// text.
pub proof fn lemma_first_separator(s: Seq<char>, style: Style, n: int)
    requires
        0 <= n <= s.len(),
        forall|i: int| 0 <= i < n ==> !separates(#[trigger] s[i], style),
        n < s.len() ==> separates(s[n], style),
    ensures
        first_separator(s, style) == n,
    decreases n,
{
    if n > 0 {
        assert(!separates(s[0], style));
        assert forall|i: int| 0 <= i < n - 1 implies !separates(
            #[trigger] s.drop_first()[i],
            style,
        ) by {
            assert(s.drop_first()[i] == s[i + 1]);
        }
        lemma_first_separator(s.drop_first(), style, n - 1);
    }
}

/// `first_separator` stays within the text, at a separator if it is not at the end, and no
/// separator stands before it.
pub proof fn lemma_first_separator_is_first(s: Seq<char>, style: Style)
    ensures
        first_separator(s, style) <= s.len(),
        first_separator(s, style) < s.len() ==> separates(
            s[first_separator(s, style) as int],
            style,
        ),
        forall|i: int| 0 <= i < first_separator(s, style) ==> !separates(#[trigger] s[i], style),
    decreases s.len(),
{
    if s.len() > 0 && !separates(s[0], style) {
        let rest = s.drop_first();
        lemma_first_separator_is_first(rest, style);
        assert forall|i: int| 0 <= i < first_separator(s, style) implies !separates(
            #[trigger] s[i],
            style,
        ) by {
            if i > 0 {
                assert(s[i] == rest[i - 1]);
            }
        }
    }
}

/// The name that `s` starts with.
pub open spec fn first_name(s: Seq<char>, style: Style) -> Seq<char> {
    s.take(first_separator(s, style) as int)
}

/// What follows the first separator in `s`; nothing where there is none.
pub open spec fn after_first_name(s: Seq<char>, style: Style) -> Seq<char> {
    let n = first_separator(s, style) as int;
    if n < s.len() {
        s.skip(n + 1)
    } else {
        seq![]
    }
}

/// A prefix; `T` stands for the names in it.
pub enum Prefix<T> {
    /// `\\?\name`
    Verbatim(T),
    /// `\\?\UNC\server\share`
    VerbatimUnc(T, T),
    /// `\\?\C:`
    VerbatimDisk(char),
    /// `\\.\device`
    Device(T),
    /// `\\server\share`
    Unc(T, T),
    /// `C:`
    Disk(char),
}

impl View for Prefix<Vec<char>> {
    type V = Prefix<Seq<char>>;

    open spec fn view(&self) -> Prefix<Seq<char>> {
        match *self {
            Prefix::Verbatim(name) => Prefix::Verbatim(name@),
            Prefix::VerbatimUnc(server, share) => Prefix::VerbatimUnc(server@, share@),
            Prefix::VerbatimDisk(drive) => Prefix::VerbatimDisk(drive),
            Prefix::Device(name) => Prefix::Device(name@),
            Prefix::Unc(server, share) => Prefix::Unc(server@, share@),
            Prefix::Disk(drive) => Prefix::Disk(drive),
        }
    }
}

/// How many characters a share takes with the separator before it; an empty one takes none.
pub open spec fn share_len(share: Seq<char>) -> nat {
    if share.len() > 0 {
        1 + share.len()
    } else {
        0
    }
}

/// How many characters a prefix takes.
pub open spec fn prefix_len(prefix: Prefix<Seq<char>>) -> nat {
    match prefix {
        Prefix::Verbatim(name) => 4 + name.len(),
        Prefix::VerbatimUnc(server, share) => 8 + server.len() + share_len(share),
        Prefix::VerbatimDisk(_) => 6,
        Prefix::Device(name) => 4 + name.len(),
        Prefix::Unc(server, share) => 2 + server.len() + share_len(share),
        Prefix::Disk(_) => 2,
    }
}

/// Whether what follows a prefix is taken word for word.
pub open spec fn is_verbatim(prefix: Prefix<Seq<char>>) -> bool {
    prefix is Verbatim || prefix is VerbatimUnc || prefix is VerbatimDisk
}

/// Whether a prefix stands for a root even with no separator after it.
pub open spec fn implies_root(prefix: Prefix<Seq<char>>) -> bool {
    prefix is Device || prefix is Unc
}

/// Whether a character is an ASCII letter.
pub open spec fn is_letter(c: char) -> bool {
    'a' <= c <= 'z' || 'A' <= c <= 'Z'
}

/// The drive that `s` opens with, in upper case.
pub open spec fn drive_of(s: Seq<char>) -> Option<char> {
    if s.len() >= 2 && is_letter(s[0]) && s[1] == ':' {
        if 'a' <= s[0] <= 'z' {
            Some((s[0] as u32 - 32) as char)
        } else {
            Some(s[0])
        }
    } else {
        None
    }
}

/// Whether `s` opens with two separators.
pub open spec fn opens_twice(s: Seq<char>) -> bool {
    s.len() >= 2 && separates(s[0], Style::Either) && separates(s[1], Style::Either)
}

/// Whether `s` opens with `\\?\`, written with these very characters.
pub open spec fn opens_verbatim(s: Seq<char>) -> bool {
    s.len() >= 4 && s[0] == '\\' && s[1] == '\\' && s[2] == '?' && s[3] == '\\'
}

/// Whether `s` opens with `\\.\`.
pub open spec fn opens_device(s: Seq<char>) -> bool {
    opens_twice(s) && s.len() >= 4 && s[2] == '.' && separates(s[3], Style::Either)
}

/// Whether `s` has `UNC\` after its first four characters.
pub open spec fn goes_on_unc(s: Seq<char>) -> bool {
    s.len() >= 8 && s[4] == 'U' && s[5] == 'N' && s[6] == 'C' && separates(s[7], Style::Either)
}

/// The verbatim prefix of a path that opens with `\\?\`.
pub open spec fn verbatim_prefix(path: Seq<char>) -> Prefix<Seq<char>> {
    let rest = path.skip(4);
    if goes_on_unc(path) {
        let names = path.skip(8);
        Prefix::VerbatimUnc(
            first_name(names, Style::Backslash),
            first_name(after_first_name(names, Style::Backslash), Style::Backslash),
        )
    } else if drive_of(rest) is Some && (rest.len() == 2 || separates(rest[2], Style::Either)) {
        Prefix::VerbatimDisk(drive_of(rest)->0)
    } else {
        Prefix::Verbatim(first_name(rest, Style::Backslash))
    }
}

/// The share that a path that opens with two separators names, if it names one.
pub open spec fn share_prefix(path: Seq<char>) -> Option<Prefix<Seq<char>>> {
    let names = path.skip(2);
    let server = first_name(names, Style::Either);
    let share = first_name(after_first_name(names, Style::Either), Style::Either);
    if server.len() > 0 && share.len() > 0 {
        Some(Prefix::Unc(server, share))
    } else {
        None
    }
}

/// The prefix of a path, if it has one. On Unix none has.
pub open spec fn prefix_of(path: Seq<char>, system: System) -> Option<Prefix<Seq<char>>> {
    if system == System::Unix {
        None
    } else if opens_verbatim(path) {
        Some(verbatim_prefix(path))
    } else if opens_device(path) {
        Some(Prefix::Device(first_name(path.skip(4), Style::Either)))
    } else if opens_twice(path) {
        share_prefix(path)
    } else {
        match drive_of(path) {
            Some(drive) => Some(Prefix::Disk(drive)),
            None => None,
        }
    }
}

/// A prefix lies within its path.
pub proof fn lemma_prefix_fits(path: Seq<char>, system: System)
    ensures
        prefix_of(path, system) matches Some(prefix) ==> prefix_len(prefix) <= path.len(),
{
    lemma_first_separator_is_first(path.skip(2), Style::Either);
    lemma_first_separator_is_first(path.skip(4), Style::Either);
    lemma_first_separator_is_first(path.skip(4), Style::Backslash);
    lemma_first_separator_is_first(path.skip(8), Style::Backslash);
    lemma_first_separator_is_first(
        after_first_name(path.skip(2), Style::Either),
        Style::Either,
    );
    lemma_first_separator_is_first(
        after_first_name(path.skip(8), Style::Backslash),
        Style::Backslash,
    );
}

/// Where the name that starts at `from` ends.
pub fn end_of_name(chars: &Vec<char>, from: usize, style: Style) -> (end: usize)
    requires
        from <= chars@.len(),
    ensures
        from <= end <= chars@.len(),
        end == from + first_separator(chars@.skip(from as int), style),
{
    let mut end: usize = from;
    while end < chars.len() && !is_separator(chars[end], style)
        invariant
            from <= end <= chars@.len(),
            forall|i: int| from <= i < end ==> !separates(#[trigger] chars@[i], style),
        decreases chars@.len() - end,
    {
        end = end + 1;
    }
    proof {
        let tail = chars@.skip(from as int);
        assert forall|i: int| 0 <= i < end - from implies !separates(#[trigger] tail[i], style) by {
            assert(tail[i] == chars@[from + i]);
        }
        lemma_first_separator(tail, style, end - from);
    }
    end
}

/// The name that starts at `from`, and where what follows its separator starts.
fn name_at(chars: &Vec<char>, from: usize, style: Style) -> (found: (Vec<char>, usize))
    requires
        from <= chars@.len(),
    ensures
        found.0@ == first_name(chars@.skip(from as int), style),
        from <= found.1 <= chars@.len(),
        chars@.skip(found.1 as int) == after_first_name(chars@.skip(from as int), style),
{
    let end = end_of_name(chars, from, style);
    let mut name: Vec<char> = Vec::new();
    let mut i: usize = from;
    while i < end
        invariant
            from <= i <= end <= chars@.len(),
            name@ == chars@.subrange(from as int, i as int),
        decreases end - i,
    {
        name.push(chars[i]);
        assert(name@ =~= chars@.subrange(from as int, i + 1));
        i = i + 1;
    }
    let next: usize = if end < chars.len() { end + 1 } else { end };
    proof {
        let tail = chars@.skip(from as int);
        assert(name@ =~= first_name(tail, style));
        assert(chars@.skip(next as int) =~= after_first_name(tail, style));
    }
    (name, next)
}

/// The drive that a path has at `from`, in upper case.
fn drive_at(chars: &Vec<char>, from: usize) -> (drive: Option<char>)
    requires
        from <= chars@.len(),
    ensures
        drive == drive_of(chars@.skip(from as int)),
{
    if chars.len() - from < 2 || chars[from + 1] != ':' {
        return None;
    }
    let c = chars[from];
    if 'a' <= c && c <= 'z' {
        Some((c as u8 - 32) as char)
    } else if 'A' <= c && c <= 'Z' {
        Some(c)
    } else {
        None
    }
}

/// The verbatim prefix of a path that opens with `\\?\`.
fn find_verbatim_prefix(chars: &Vec<char>) -> (prefix: Prefix<Vec<char>>)
    requires
        opens_verbatim(chars@),
    ensures
        prefix@ == verbatim_prefix(chars@),
{
    if chars.len() >= 8 && chars[4] == 'U' && chars[5] == 'N' && chars[6] == 'C' && is_separator(
        chars[7],
        Style::Either,
    ) {
        let (server, next) = name_at(chars, 8, Style::Backslash);
        let (share, _) = name_at(chars, next, Style::Backslash);
        return Prefix::VerbatimUnc(server, share);
    }
    if chars.len() == 6 || (chars.len() > 6 && is_separator(chars[6], Style::Either)) {
        if let Some(drive) = drive_at(chars, 4) {
            return Prefix::VerbatimDisk(drive);
        }
    }
    let (name, _) = name_at(chars, 4, Style::Backslash);
    Prefix::Verbatim(name)
}

/// The prefix of a path, if it has one.
pub fn find_prefix(chars: &Vec<char>, system: System) -> (prefix: Option<Prefix<Vec<char>>>)
    ensures
        match prefix {
            Some(found) => prefix_of(chars@, system) == Some(found@),
            None => prefix_of(chars@, system) is None,
        },
{
    if system == System::Unix {
        return None;
    }
    assert(chars@.skip(0) =~= chars@);
    let count: usize = chars.len();
    if count >= 2 && is_separator(chars[0], Style::Either) && is_separator(
        chars[1],
        Style::Either,
    ) {
        if count >= 4 && chars[0] == '\\' && chars[1] == '\\' && chars[2] == '?' && chars[3]
            == '\\' {
            return Some(find_verbatim_prefix(chars));
        }
        if count >= 4 && chars[2] == '.' && is_separator(chars[3], Style::Either) {
            let (name, _) = name_at(chars, 4, Style::Either);
            return Some(Prefix::Device(name));
        }
        let (server, next) = name_at(chars, 2, Style::Either);
        let (share, _) = name_at(chars, next, Style::Either);
        if server.len() > 0 && share.len() > 0 {
            return Some(Prefix::Unc(server, share));
        }
        return None;
    }
    match drive_at(chars, 0) {
        Some(drive) => Some(Prefix::Disk(drive)),
        None => None,
    }
}

/// How many characters a share takes with the separator before it.
fn length_of_share(share: &Vec<char>) -> (n: usize)
    requires
        share@.len() < usize::MAX,
    ensures
        n == share_len(share@),
{
    if share.len() > 0 {
        1 + share.len()
    } else {
        0
    }
}

/// How many characters a prefix takes.
pub fn length_of_prefix(prefix: &Prefix<Vec<char>>) -> (n: usize)
    requires
        prefix_len(prefix@) <= usize::MAX,
    ensures
        n == prefix_len(prefix@),
{
    match prefix {
        Prefix::Verbatim(name) => 4 + name.len(),
        Prefix::VerbatimUnc(server, share) => 8 + server.len() + length_of_share(share),
        Prefix::VerbatimDisk(_) => 6,
        Prefix::Device(name) => 4 + name.len(),
        Prefix::Unc(server, share) => 2 + server.len() + length_of_share(share),
        Prefix::Disk(_) => 2,
    }
}

/// Whether two names are the same.
fn same_name(a: &Vec<char>, b: &Vec<char>) -> (same: bool)
    ensures
        same == (a@ == b@),
{
    if a.len() != b.len() {
        return false;
    }
    let mut i: usize = 0;
    while i < a.len()
        invariant
            i <= a@.len(),
            a@.len() == b@.len(),
            forall|j: int| 0 <= j < i ==> a@[j] == b@[j],
        decreases a@.len() - i,
    {
        if a[i] != b[i] {
            return false;
        }
        i = i + 1;
    }
    assert(a@ =~= b@);
    true
}

/// Whether two prefixes are the same; a drive is the same in upper and in lower case.
pub fn same_prefix(a: &Prefix<Vec<char>>, b: &Prefix<Vec<char>>) -> (same: bool)
    ensures
        same == (a@ == b@),
{
    match (a, b) {
        (Prefix::Verbatim(x), Prefix::Verbatim(y)) => same_name(x, y),
        (Prefix::VerbatimUnc(x, s), Prefix::VerbatimUnc(y, t)) => same_name(x, y) && same_name(
            s,
            t,
        ),
        (Prefix::VerbatimDisk(x), Prefix::VerbatimDisk(y)) => *x == *y,
        (Prefix::Device(x), Prefix::Device(y)) => same_name(x, y),
        (Prefix::Unc(x, s), Prefix::Unc(y, t)) => same_name(x, y) && same_name(s, t),
        (Prefix::Disk(x), Prefix::Disk(y)) => *x == *y,
        _ => false,
    }
}

/// A letter and a colon open a path on a drive, whatever follows and in whichever case the letter
/// is written.
pub proof fn law_drives(letter: char, rest: Seq<char>)
    requires
        is_letter(letter),
    ensures
        prefix_of(seq![letter, ':'] + rest, System::Windows) matches Some(Prefix::Disk(drive)) && 'A'
            <= drive <= 'Z' && (drive == letter || drive as int + 32 == letter as int),
{
    let path = seq![letter, ':'] + rest;
    assert(path[0] == letter && path[1] == ':');
}

/// Two separators, a server, a separator and a share open a path on that share, up to its end or to
/// the next separator.
pub proof fn law_shares(
    first: char,
    second: char,
    server: Seq<char>,
    third: char,
    share: Seq<char>,
    rest: Seq<char>,
)
    requires
        separates(first, Style::Either),
        separates(second, Style::Either),
        separates(third, Style::Either),
        server.len() > 0,
        server != seq!['?'],
        server != seq!['.'],
        share.len() > 0,
        forall|i: int| 0 <= i < server.len() ==> !separates(#[trigger] server[i], Style::Either),
        forall|i: int| 0 <= i < share.len() ==> !separates(#[trigger] share[i], Style::Either),
        rest.len() > 0 ==> separates(rest[0], Style::Either),
    ensures
        prefix_of(
            seq![first, second] + server + seq![third] + share + rest,
            System::Windows,
        ) == Some(Prefix::Unc(server, share)),
        prefix_len(Prefix::Unc(server, share)) == 2 + server.len() + 1 + share.len(),
{
    let style = Style::Either;
    let path = seq![first, second] + server + seq![third] + share + rest;
    let names = path.skip(2);
    assert(names =~= server + seq![third] + share + rest);
    lemma_first_separator(names, style, server.len() as int);
    assert(first_name(names, style) =~= server);
    let after = after_first_name(names, style);
    assert(after =~= share + rest);
    lemma_first_separator(after, style, share.len() as int);
    assert(first_name(after, style) =~= share);
    if opens_verbatim(path) || opens_device(path) {
        assert(path[3] == (server + seq![third])[1]);
        assert(server.len() == 1) by {
            if server.len() > 1 {
                assert(path[3] == server[1]);
            }
        }
        assert(server =~= seq![path[2]]);
    }
}

/// On Unix no path has a prefix; on Windows none has that starts neither with two separators nor
/// with a letter and a colon.
pub proof fn law_paths_without_prefix(path: Seq<char>)
    ensures
        prefix_of(path, System::Unix) is None,
        path.len() < 2 ==> prefix_of(path, System::Windows) is None,
        path.len() >= 2 && path[1] != ':' && path[1] != '/' && path[1] != '\\' ==> prefix_of(
            path,
            System::Windows,
        ) is None,
        path.len() >= 2 && !is_letter(path[0]) && path[0] != '/' && path[0] != '\\' ==> prefix_of(
            path,
            System::Windows,
        ) is None,
{
}

/// Two separators, a dot and a separator open a path on the device that is named next.
pub proof fn law_devices(
    first: char,
    second: char,
    third: char,
    device: Seq<char>,
    rest: Seq<char>,
)
    requires
        separates(first, Style::Either),
        separates(second, Style::Either),
        separates(third, Style::Either),
        forall|i: int| 0 <= i < device.len() ==> !separates(#[trigger] device[i], Style::Either),
        rest.len() > 0 ==> separates(rest[0], Style::Either),
    ensures
        prefix_of(seq![first, second, '.', third] + device + rest, System::Windows) == Some(
            Prefix::Device(device),
        ),
        prefix_len(Prefix::Device(device)) == 4 + device.len(),
{
    let path = seq![first, second, '.', third] + device + rest;
    let tail = path.skip(4);
    assert(tail =~= device + rest);
    lemma_first_separator(tail, Style::Either, device.len() as int);
    assert(first_name(tail, Style::Either) =~= device);
}

/// `\\?\UNC\`, a server, a `\` and a share open a verbatim path on that share.
pub proof fn law_verbatim_shares(server: Seq<char>, share: Seq<char>, rest: Seq<char>)
    requires
        forall|i: int| 0 <= i < server.len() ==> (#[trigger] server[i]) != '\\',
        forall|i: int| 0 <= i < share.len() ==> (#[trigger] share[i]) != '\\',
        share.len() > 0,
        rest.len() > 0 ==> rest[0] == '\\',
    ensures
        prefix_of(
            seq!['\\', '\\', '?', '\\', 'U', 'N', 'C', '\\'] + (server + seq!['\\'] + share + rest),
            System::Windows,
        ) == Some(Prefix::VerbatimUnc(server, share)),
        prefix_len(Prefix::VerbatimUnc(server, share)) == 8 + server.len() + 1 + share.len(),
{
    let style = Style::Backslash;
    let open = seq!['\\', '\\', '?', '\\', 'U', 'N', 'C', '\\'];
    let names = server + seq!['\\'] + share + rest;
    assert((open + names).skip(8) =~= names);
    lemma_first_separator(names, style, server.len() as int);
    assert(first_name(names, style) =~= server);
    let after = after_first_name(names, style);
    assert(after =~= share + rest);
    lemma_first_separator(after, style, share.len() as int);
    assert(first_name(after, style) =~= share);
}

/// `\\?\`, a letter and a colon open a verbatim path on a drive, if nothing or a separator follows.
pub proof fn law_verbatim_drives(letter: char, rest: Seq<char>)
    requires
        is_letter(letter),
        rest.len() > 0 ==> separates(rest[0], Style::Either),
    ensures
        prefix_of(
            seq!['\\', '\\', '?', '\\'] + (seq![letter, ':'] + rest),
            System::Windows,
        ) matches Some(Prefix::VerbatimDisk(drive)) && 'A' <= drive <= 'Z' && (drive == letter
            || drive as int + 32 == letter as int),
{
    let tail = seq![letter, ':'] + rest;
    let path = seq!['\\', '\\', '?', '\\'] + tail;
    assert(path.skip(4) =~= tail);
    assert(tail[0] == letter && tail[1] == ':');
    assert(path[5] == ':');
    if rest.len() > 0 {
        assert(tail[2] == rest[0]);
    }
}

/// `\\?\` and any other name, up to the next `\`, open a verbatim path under that name.
pub proof fn law_verbatim_names(name: Seq<char>, rest: Seq<char>)
    requires
        forall|i: int| 0 <= i < name.len() ==> (#[trigger] name[i]) != '\\',
        name.len() >= 2 ==> name[1] != ':' && name[1] != 'N',
        rest.len() > 0 ==> rest[0] == '\\',
    ensures
        prefix_of(seq!['\\', '\\', '?', '\\'] + (name + rest), System::Windows) == Some(
            Prefix::Verbatim(name),
        ),
        prefix_len(Prefix::Verbatim(name)) == 4 + name.len(),
{
    let tail = name + rest;
    let path = seq!['\\', '\\', '?', '\\'] + tail;
    assert(path.skip(4) =~= tail);
    lemma_first_separator(tail, Style::Backslash, name.len() as int);
    assert(first_name(tail, Style::Backslash) =~= name);
    if name.len() >= 2 {
        assert(tail[1] == name[1]);
        assert(path[5] == name[1]);
    } else if tail.len() >= 2 {
        if name.len() == 1 {
            assert(tail[1] == rest[0]);
            assert(path[5] == tail[1]);
        } else {
            assert(tail[0] == rest[0]);
            assert(path[4] == tail[0]);
        }
    }
}

} // verus!
