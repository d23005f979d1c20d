//! The command parser: free-text player input to a structured [`Action`].
//!
//! The grammar is a fixed, ordered list of matchers tried against the
//! trimmed input with short-circuit at the first match: `exit`/`quit`, then
//! `load`, `save`, `inventory`/`inv`, `move <word>`/`go <word>`,
//! `take <word>`/`get <word>`, `use <word> on <word>`, and otherwise
//! [`Action::Unknown`].  Matching is ASCII-case-insensitive, keywords match
//! as prefixes of the trimmed input, and a captured token is a single
//! alphabetic word, folded to lowercase.  Parsing is total and pure: it is a
//! function of the input text alone ([`parse_spec`]) and never fails.

use vstd::prelude::*;

use crate::text::{
    is_alpha_char, is_space_char, is_ws_char, lower_char, lower_char_exec, lower_seq, lower_string,
};

verus! {

/// The closed set of structured commands the parser can produce.
pub enum Action {
    /// End the session.
    Exit,
    /// Load the saved world state.
    Load,
    /// Save the world state.
    Save,
    /// List the player's inventory.
    Inventory,
    /// Move the player in the given direction.
    Move(String),
    /// Take the named item from the current room.
    Take(String),
    /// Put the named item down (reserved; no matcher produces it).
    Put(String),
    /// Use the first named item on the second named feature.
    Use(String, String),
    /// The input matched no known command.
    Unknown,
}

/// The spec-level image of an [`Action`]: payloads as character sequences.
pub enum ActionV {
    /// End the session.
    Exit,
    /// Load the saved world state.
    Load,
    /// Save the world state.
    Save,
    /// List the player's inventory.
    Inventory,
    /// Move the player in the given direction.
    Move(Seq<char>),
    /// Take the named item from the current room.
    Take(Seq<char>),
    /// Put the named item down (reserved; no matcher produces it).
    Put(Seq<char>),
    /// Use the first named item on the second named feature.
    Use(Seq<char>, Seq<char>),
    /// The input matched no known command.
    Unknown,
}

impl View for Action {
    type V = ActionV;

    open spec fn view(&self) -> ActionV {
        match self {
            Action::Exit => ActionV::Exit,
            Action::Load => ActionV::Load,
            Action::Save => ActionV::Save,
            Action::Inventory => ActionV::Inventory,
            Action::Move(d) => ActionV::Move(d@),
            Action::Take(n) => ActionV::Take(n@),
            Action::Put(n) => ActionV::Put(n@),
            Action::Use(s, t) => ActionV::Use(s@, t@),
            Action::Unknown => ActionV::Unknown,
        }
    }
}

/// The number of leading whitespace characters.
pub open spec fn leading_ws(s: Seq<char>) -> nat
    decreases s.len(),
{
    if s.len() == 0 {
        0
    } else if is_ws_char(s.first()) {
        1 + leading_ws(s.drop_first())
    } else {
        0
    }
}

/// The number of trailing whitespace characters.
pub open spec fn trailing_ws(s: Seq<char>) -> nat
    decreases s.len(),
{
    if s.len() == 0 {
        0
    } else if is_ws_char(s.last()) {
        1 + trailing_ws(s.drop_last())
    } else {
        0
    }
}

/// The input with surrounding whitespace removed.
pub open spec fn trim_spec(s: Seq<char>) -> Seq<char> {
    if leading_ws(s) == s.len() {
        Seq::empty()
    } else {
        s.subrange(leading_ws(s) as int, s.len() - trailing_ws(s))
    }
}

/// Whether `kw` occurs at position `at` of `t`, up to ASCII case.
/// `kw` is given lowercase.
pub open spec fn match_kw_at(t: Seq<char>, kw: Seq<char>, at: int) -> bool {
    0 <= at && at + kw.len() <= t.len() && lower_seq(t.subrange(at, at + kw.len())) == kw
}

/// The length of the run of spaces and tabs starting at `from`.
pub open spec fn space_run(t: Seq<char>, from: int) -> nat
    decreases t.len() - from,
{
    if from < 0 || from >= t.len() {
        0
    } else if is_space_char(t[from]) {
        1 + space_run(t, from + 1)
    } else {
        0
    }
}

/// The length of the run of ASCII letters starting at `from`.
pub open spec fn alpha_run(t: Seq<char>, from: int) -> nat
    decreases t.len() - from,
{
    if from < 0 || from >= t.len() {
        0
    } else if is_alpha_char(t[from]) {
        1 + alpha_run(t, from + 1)
    } else {
        0
    }
}

/// Whether `kw` at position `at` is followed by at least one space or tab
/// and then at least one ASCII letter: the shape of `move north`.
pub open spec fn kw_word_at(t: Seq<char>, kw: Seq<char>, at: int) -> bool {
    &&& match_kw_at(t, kw, at)
    &&& space_run(t, at + kw.len()) >= 1
    &&& alpha_run(t, at + kw.len() + space_run(t, at + kw.len())) >= 1
}

/// The position where the captured word after `kw` begins.
pub open spec fn kw_word_start(t: Seq<char>, kw: Seq<char>, at: int) -> int {
    at + kw.len() + space_run(t, at + kw.len())
}

/// The captured word after `kw`: the maximal run of letters, folded to
/// ASCII lowercase.
pub open spec fn kw_word_token(t: Seq<char>, kw: Seq<char>, at: int) -> Seq<char> {
    let p = kw_word_start(t, kw, at);
    lower_seq(t.subrange(p, p + alpha_run(t, p)))
}

/// The position just past the captured word after `kw`.
pub open spec fn kw_word_end(t: Seq<char>, kw: Seq<char>, at: int) -> int {
    let p = kw_word_start(t, kw, at);
    p + alpha_run(t, p)
}

/// Whether the trimmed input is an `exit` command.
pub open spec fn matches_exit(t: Seq<char>) -> bool {
    match_kw_at(t, "exit"@, 0) || match_kw_at(t, "quit"@, 0)
}

/// Whether the trimmed input is a `load` command.
pub open spec fn matches_load(t: Seq<char>) -> bool {
    match_kw_at(t, "load"@, 0)
}

/// Whether the trimmed input is a `save` command.
pub open spec fn matches_save(t: Seq<char>) -> bool {
    match_kw_at(t, "save"@, 0)
}

/// Whether the trimmed input is an `inventory` command.
pub open spec fn matches_inventory(t: Seq<char>) -> bool {
    match_kw_at(t, "inventory"@, 0) || match_kw_at(t, "inv"@, 0)
}

/// Whether the trimmed input is a `move` command with a direction word.
pub open spec fn matches_move(t: Seq<char>) -> bool {
    kw_word_at(t, "move"@, 0) || kw_word_at(t, "go"@, 0)
}

/// The direction word of a `move` command, folded to lowercase.
pub open spec fn move_token(t: Seq<char>) -> Seq<char> {
    if kw_word_at(t, "move"@, 0) {
        kw_word_token(t, "move"@, 0)
    } else {
        kw_word_token(t, "go"@, 0)
    }
}

/// Whether the trimmed input is a `take` command with an item word.
pub open spec fn matches_take(t: Seq<char>) -> bool {
    kw_word_at(t, "take"@, 0) || kw_word_at(t, "get"@, 0)
}

/// The item word of a `take` command, folded to lowercase.
pub open spec fn take_token(t: Seq<char>) -> Seq<char> {
    if kw_word_at(t, "take"@, 0) {
        kw_word_token(t, "take"@, 0)
    } else {
        kw_word_token(t, "get"@, 0)
    }
}

/// The position where the `on` clause of a `use` command begins.
pub open spec fn use_on_at(t: Seq<char>) -> int {
    let e = kw_word_end(t, "use"@, 0);
    e + space_run(t, e)
}

/// Whether the trimmed input is a `use <word> on <word>` command.
pub open spec fn matches_use(t: Seq<char>) -> bool {
    &&& kw_word_at(t, "use"@, 0)
    &&& space_run(t, kw_word_end(t, "use"@, 0)) >= 1
    &&& kw_word_at(t, "on"@, use_on_at(t))
}

/// The subject (item) word of a `use` command, folded to lowercase.
pub open spec fn use_subject(t: Seq<char>) -> Seq<char> {
    kw_word_token(t, "use"@, 0)
}

/// The target (feature) word of a `use` command, folded to lowercase.
pub open spec fn use_target(t: Seq<char>) -> Seq<char> {
    kw_word_token(t, "on"@, use_on_at(t))
}

/// What any input text parses to: the matchers are tried in a fixed order
/// against the trimmed input and the first match wins.
pub open spec fn parse_spec(s: Seq<char>) -> ActionV {
    let t = trim_spec(s);
    if matches_exit(t) {
        ActionV::Exit
    } else if matches_load(t) {
        ActionV::Load
    } else if matches_save(t) {
        ActionV::Save
    } else if matches_inventory(t) {
        ActionV::Inventory
    } else if matches_move(t) {
        ActionV::Move(move_token(t))
    } else if matches_take(t) {
        ActionV::Take(take_token(t))
    } else if matches_use(t) {
        ActionV::Use(use_subject(t), use_target(t))
    } else {
        ActionV::Unknown
    }
}

/// A pointwise whitespace prefix pins down `leading_ws`.
proof fn lemma_leading_ws(s: Seq<char>, a: int)
    requires
        0 <= a <= s.len(),
        forall|j: int| 0 <= j < a ==> is_ws_char(s[j]),
        a == s.len() || !is_ws_char(s[a]),
    ensures
        leading_ws(s) == a,
    decreases s.len(),
{
    if a > 0 {
        let rest = s.drop_first();
        assert(forall|j: int| 0 <= j < a - 1 ==> rest[j] == s[j + 1]);
        lemma_leading_ws(rest, a - 1);
    }
}

/// A pointwise whitespace suffix pins down `trailing_ws`.
proof fn lemma_trailing_ws(s: Seq<char>, b: int)
    requires
        0 <= b <= s.len(),
        forall|j: int| s.len() - b <= j < s.len() ==> is_ws_char(s[j]),
        b == s.len() || !is_ws_char(s[s.len() - b - 1]),
    ensures
        trailing_ws(s) == b,
    decreases s.len(),
{
    if b > 0 {
        let rest = s.drop_last();
        assert(forall|j: int| 0 <= j < rest.len() ==> rest[j] == s[j]);
        lemma_trailing_ws(rest, b - 1);
    }
}

/// A pointwise space run with a non-space behind it pins down `space_run`.
proof fn lemma_space_run(t: Seq<char>, from: int, n: int)
    requires
        0 <= from,
        0 <= n,
        from + n <= t.len(),
        forall|j: int| from <= j < from + n ==> is_space_char(t[j]),
        from + n == t.len() || !is_space_char(t[from + n]),
    ensures
        space_run(t, from) == n,
    decreases n,
{
    if n > 0 {
        lemma_space_run(t, from + 1, n - 1);
    }
}

/// A pointwise letter run with a non-letter behind it pins down `alpha_run`.
proof fn lemma_alpha_run(t: Seq<char>, from: int, n: int)
    requires
        0 <= from,
        0 <= n,
        from + n <= t.len(),
        forall|j: int| from <= j < from + n ==> is_alpha_char(t[j]),
        from + n == t.len() || !is_alpha_char(t[from + n]),
    ensures
        alpha_run(t, from) == n,
    decreases n,
{
    if n > 0 {
        lemma_alpha_run(t, from + 1, n - 1);
    }
}

/// Whether the character is a space or a tab.
fn is_space_char_exec(c: char) -> (r: bool)
    ensures
        r == is_space_char(c),
{
    c == ' ' || c == '\t'
}

/// Whether the character is whitespace that trimming removes.
fn is_ws_char_exec(c: char) -> (r: bool)
    ensures
        r == is_ws_char(c),
{
    c == ' ' || c == '\t' || c == '\n' || c == '\r'
}

/// Whether the character is an ASCII letter.
fn is_alpha_char_exec(c: char) -> (r: bool)
    ensures
        r == is_alpha_char(c),
{
    let u = c as u32;
    (65 <= u && u <= 90) || (97 <= u && u <= 122)
}

/// The input with surrounding whitespace removed.
fn trim_str<'a>(s: &'a str) -> (t: &'a str)
    ensures
        t@ == trim_spec(s@),
{
    let len = s.unicode_len();
    let mut a: usize = 0;
    while a < len
        invariant
            len == s@.len(),
            a <= len,
            forall|j: int| 0 <= j < a ==> is_ws_char(s@[j]),
        ensures
            a <= len,
            forall|j: int| 0 <= j < a ==> is_ws_char(s@[j]),
            a == len || !is_ws_char(s@[a as int]),
        decreases len - a,
    {
        if !is_ws_char_exec(s.get_char(a)) {
            break ;
        }
        a = a + 1;
    }
    proof {
        lemma_leading_ws(s@, a as int);
    }
    if a == len {
        let t = s.substring_char(len, len);
        proof {
            assert(t@ =~= trim_spec(s@));
        }
        return t;
    }
    let mut b: usize = 0;
    while b < len
        invariant
            len == s@.len(),
            b <= len,
            forall|j: int| len - b <= j < len ==> is_ws_char(s@[j]),
        ensures
            b <= len,
            forall|j: int| len - b <= j < len ==> is_ws_char(s@[j]),
            b == len || !is_ws_char(s@[len - b - 1]),
        decreases len - b,
    {
        if !is_ws_char_exec(s.get_char(len - b - 1)) {
            break ;
        }
        b = b + 1;
    }
    proof {
        lemma_trailing_ws(s@, b as int);
        assert(a < len - b) by {
            if a >= len - b {
                assert(is_ws_char(s@[a as int]));
            }
        }
    }
    let t = s.substring_char(a, len - b);
    proof {
        assert(t@ =~= trim_spec(s@));
    }
    t
}

/// Whether `kw` (given lowercase) occurs at position `at` of `t`, up to
/// ASCII case.
fn matches_keyword_at(t: &str, kw: &str, at: usize) -> (r: bool)
    ensures
        r == match_kw_at(t@, kw@, at as int),
{
    let tlen = t.unicode_len();
    let klen = kw.unicode_len();
    if at > tlen || klen > tlen - at {
        return false;
    }
    let mut i: usize = 0;
    while i < klen
        invariant
            tlen == t@.len(),
            klen == kw@.len(),
            at + klen <= tlen,
            i <= klen,
            forall|j: int| 0 <= j < i ==> lower_char(t@[at + j]) == kw@[j],
        decreases klen - i,
    {
        if lower_char_exec(t.get_char(at + i)) != kw.get_char(i) {
            proof {
                let seg = t@.subrange(at as int, at + klen);
                assert(lower_seq(seg)[i as int] == lower_char(t@[at + i]));
            }
            return false;
        }
        i = i + 1;
    }
    proof {
        let seg = t@.subrange(at as int, at + klen);
        assert(lower_seq(seg) =~= kw@);
    }
    true
}

/// The length of the run of spaces and tabs starting at `from`.
fn space_run_exec(t: &str, from: usize) -> (n: usize)
    requires
        from <= t@.len(),
    ensures
        n == space_run(t@, from as int),
        from + n <= t@.len(),
        t@.len() <= usize::MAX,
{
    let len = t.unicode_len();
    let mut n: usize = 0;
    while from + n < len
        invariant
            len == t@.len(),
            from + n <= len,
            forall|j: int| from <= j < from + n ==> is_space_char(t@[j]),
        ensures
            from + n <= len,
            forall|j: int| from <= j < from + n ==> is_space_char(t@[j]),
            from + n == len || !is_space_char(t@[from + n]),
        decreases len - from - n,
    {
        if !is_space_char_exec(t.get_char(from + n)) {
            break ;
        }
        n = n + 1;
    }
    proof {
        lemma_space_run(t@, from as int, n as int);
    }
    n
}

/// The length of the run of ASCII letters starting at `from`.
fn alpha_run_exec(t: &str, from: usize) -> (n: usize)
    requires
        from <= t@.len(),
    ensures
        n == alpha_run(t@, from as int),
        from + n <= t@.len(),
{
    let len = t.unicode_len();
    let mut n: usize = 0;
    while from + n < len
        invariant
            len == t@.len(),
            from + n <= len,
            forall|j: int| from <= j < from + n ==> is_alpha_char(t@[j]),
        ensures
            from + n <= len,
            forall|j: int| from <= j < from + n ==> is_alpha_char(t@[j]),
            from + n == len || !is_alpha_char(t@[from + n]),
        decreases len - from - n,
    {
        if !is_alpha_char_exec(t.get_char(from + n)) {
            break ;
        }
        n = n + 1;
    }
    proof {
        lemma_alpha_run(t@, from as int, n as int);
    }
    n
}

/// Match `kw` at position `at`, then at least one space, then a word of
/// letters.  On a match, the word is returned folded to lowercase, with
/// the position just past it.
fn keyword_word_at(t: &str, kw: &str, at: usize) -> (r: Option<(String, usize)>)
    requires
        at <= t@.len(),
    ensures
        kw_word_at(t@, kw@, at as int) ==> (r matches Some(p) && p.0@ == kw_word_token(
            t@,
            kw@,
            at as int,
        ) && p.1 as int == kw_word_end(t@, kw@, at as int) && p.1 <= t@.len()),
        !kw_word_at(t@, kw@, at as int) ==> r is None,
{
    let tlen = t.unicode_len();
    if at > tlen {
        return None;
    }
    if !matches_keyword_at(t, kw, at) {
        return None;
    }
    let klen = kw.unicode_len();
    let sp = space_run_exec(t, at + klen);
    if sp == 0 {
        return None;
    }
    let p = at + klen + sp;
    let ar = alpha_run_exec(t, p);
    if ar == 0 {
        return None;
    }
    let word = t.substring_char(p, p + ar);
    let token = lower_string(word);
    Some((token, p + ar))
}

/// The `exit`/`quit` matcher.
fn is_exit(t: &str) -> (r: Option<Action>)
    ensures
        matches_exit(t@) ==> (r matches Some(a) && a@ == ActionV::Exit),
        !matches_exit(t@) ==> r is None,
{
    if matches_keyword_at(t, "exit", 0) || matches_keyword_at(t, "quit", 0) {
        Some(Action::Exit)
    } else {
        None
    }
}

/// The `load` matcher.
fn is_load(t: &str) -> (r: Option<Action>)
    ensures
        matches_load(t@) ==> (r matches Some(a) && a@ == ActionV::Load),
        !matches_load(t@) ==> r is None,
{
    if matches_keyword_at(t, "load", 0) {
        Some(Action::Load)
    } else {
        None
    }
}

/// The `save` matcher.
fn is_save(t: &str) -> (r: Option<Action>)
    ensures
        matches_save(t@) ==> (r matches Some(a) && a@ == ActionV::Save),
        !matches_save(t@) ==> r is None,
{
    if matches_keyword_at(t, "save", 0) {
        Some(Action::Save)
    } else {
        None
    }
}

/// The `inventory`/`inv` matcher.
fn is_inventory(t: &str) -> (r: Option<Action>)
    ensures
        matches_inventory(t@) ==> (r matches Some(a) && a@ == ActionV::Inventory),
        !matches_inventory(t@) ==> r is None,
{
    if matches_keyword_at(t, "inventory", 0) || matches_keyword_at(t, "inv", 0) {
        Some(Action::Inventory)
    } else {
        None
    }
}

/// The `move <word>`/`go <word>` matcher.
fn is_move(t: &str) -> (r: Option<Action>)
    ensures
        matches_move(t@) ==> (r matches Some(a) && a@ == ActionV::Move(move_token(t@))),
        !matches_move(t@) ==> r is None,
{
    match keyword_word_at(t, "move", 0) {
        Some(p) => Some(Action::Move(p.0)),
        None => match keyword_word_at(t, "go", 0) {
            Some(p) => Some(Action::Move(p.0)),
            None => None,
        },
    }
}

/// The `take <word>`/`get <word>` matcher.
fn is_take(t: &str) -> (r: Option<Action>)
    ensures
        matches_take(t@) ==> (r matches Some(a) && a@ == ActionV::Take(take_token(t@))),
        !matches_take(t@) ==> r is None,
{
    match keyword_word_at(t, "take", 0) {
        Some(p) => Some(Action::Take(p.0)),
        None => match keyword_word_at(t, "get", 0) {
            Some(p) => Some(Action::Take(p.0)),
            None => None,
        },
    }
}

/// The `use <word> on <word>` matcher.
fn is_use(t: &str) -> (r: Option<Action>)
    ensures
        matches_use(t@) ==> (r matches Some(a) && a@ == ActionV::Use(use_subject(t@), use_target(t@))),
        !matches_use(t@) ==> r is None,
{
    match keyword_word_at(t, "use", 0) {
        Some(p) => {
            let (subject, e) = p;
            let sp = space_run_exec(t, e);
            if sp == 0 {
                return None;
            }
            match keyword_word_at(t, "on", e + sp) {
                Some(q) => Some(Action::Use(subject, q.0)),
                None => None,
            }
        },
        None => None,
    }
}

/// Apply the matchers to the user's input, in their fixed priority order,
/// until there is a match or all known commands have been tried.  Pure and
/// total: the result is a function of the input text alone, and input that
/// matches nothing yields [`Action::Unknown`].
pub fn parse_input(user_input: &str) -> (action: Action)
    ensures
        action@ == parse_spec(user_input@),
{
    let trimmed = trim_str(user_input);
    if let Some(a) = is_exit(trimmed) {
        return a;
    }
    if let Some(a) = is_load(trimmed) {
        return a;
    }
    if let Some(a) = is_save(trimmed) {
        return a;
    }
    if let Some(a) = is_inventory(trimmed) {
        return a;
    }
    if let Some(a) = is_move(trimmed) {
        return a;
    }
    if let Some(a) = is_take(trimmed) {
        return a;
    }
    if let Some(a) = is_use(trimmed) {
        return a;
    }
    Action::Unknown
}

/// The leading-whitespace count is a count of leading whitespace.
proof fn lemma_leading_ws_bounds(s: Seq<char>)
    ensures
        leading_ws(s) <= s.len(),
        leading_ws(s) < s.len() ==> !is_ws_char(s[leading_ws(s) as int]),
        forall|j: int| 0 <= j < leading_ws(s) ==> is_ws_char(s[j]),
    decreases s.len(),
{
    if s.len() > 0 && is_ws_char(s.first()) {
        lemma_leading_ws_bounds(s.drop_first());
        assert forall|j: int| 0 <= j < leading_ws(s) implies is_ws_char(s[j]) by {
            if j > 0 {
                assert(s.drop_first()[j - 1] == s[j]);
                assert(is_ws_char(s.drop_first()[j - 1]));
            }
        }
    }
}

/// The trailing-whitespace count is a count of trailing whitespace.
proof fn lemma_trailing_ws_bounds(s: Seq<char>)
    ensures
        trailing_ws(s) <= s.len(),
        trailing_ws(s) < s.len() ==> !is_ws_char(s[s.len() - trailing_ws(s) - 1]),
        forall|j: int| s.len() - trailing_ws(s) <= j < s.len() ==> is_ws_char(s[j]),
    decreases s.len(),
{
    if s.len() > 0 && is_ws_char(s.last()) {
        lemma_trailing_ws_bounds(s.drop_last());
        assert(forall|j: int| 0 <= j < s.len() - 1 ==> s.drop_last()[j] == s[j]);
    }
}

/// A space run starting inside the text ends inside the text.
proof fn lemma_space_run_bound(t: Seq<char>, from: int)
    requires
        0 <= from <= t.len(),
    ensures
        from + space_run(t, from) <= t.len(),
    decreases t.len() - from,
{
    if from < t.len() && is_space_char(t[from]) {
        lemma_space_run_bound(t, from + 1);
    }
}

/// A letter run starting inside the text ends inside the text.
proof fn lemma_alpha_run_bound(t: Seq<char>, from: int)
    requires
        0 <= from <= t.len(),
    ensures
        from + alpha_run(t, from) <= t.len(),
    decreases t.len() - from,
{
    if from < t.len() && is_alpha_char(t[from]) {
        lemma_alpha_run_bound(t, from + 1);
    }
}

/// Case folding leaves the leading-whitespace count alone.
proof fn lemma_leading_ws_lower(s: Seq<char>)
    ensures
        leading_ws(crate::text::lower_seq(s)) == leading_ws(s),
    decreases s.len(),
{
    if s.len() > 0 {
        assert(lower_seq(s).first() == lower_char(s.first()));
        assert(is_ws_char(lower_char(s.first())) == is_ws_char(s.first()));
        assert(lower_seq(s).drop_first() =~= lower_seq(s.drop_first()));
        lemma_leading_ws_lower(s.drop_first());
    }
}

/// Case folding leaves the trailing-whitespace count alone.
proof fn lemma_trailing_ws_lower(s: Seq<char>)
    ensures
        trailing_ws(lower_seq(s)) == trailing_ws(s),
    decreases s.len(),
{
    if s.len() > 0 {
        assert(lower_seq(s).last() == lower_char(s.last()));
        assert(is_ws_char(lower_char(s.last())) == is_ws_char(s.last()));
        assert(lower_seq(s).drop_last() =~= lower_seq(s.drop_last()));
        lemma_trailing_ws_lower(s.drop_last());
    }
}

/// Case folding commutes with trimming.
proof fn lemma_trim_lower(s: Seq<char>)
    ensures
        trim_spec(lower_seq(s)) == lower_seq(trim_spec(s)),
{
    lemma_leading_ws_lower(s);
    lemma_trailing_ws_lower(s);
    lemma_leading_ws_bounds(s);
    lemma_trailing_ws_bounds(s);
    let a = leading_ws(s) as int;
    if a == s.len() {
        assert(trim_spec(lower_seq(s)) =~= lower_seq(trim_spec(s)));
    } else {
        let b = s.len() - trailing_ws(s);
        assert(a < b) by {
            if a >= b {
                assert(is_ws_char(s[a]));
            }
        }
        crate::text::lemma_lower_seq_subrange(s, a, b);
        assert(trim_spec(lower_seq(s)) =~= lower_seq(trim_spec(s)));
    }
}

/// Case folding leaves keyword matching alone.
proof fn lemma_match_kw_lower(t: Seq<char>, kw: Seq<char>, at: int)
    ensures
        match_kw_at(lower_seq(t), kw, at) == match_kw_at(t, kw, at),
{
    if 0 <= at && at + kw.len() <= t.len() {
        crate::text::lemma_lower_seq_subrange(t, at, at + kw.len());
        crate::text::lemma_lower_seq_idempotent(t.subrange(at, at + kw.len()));
    }
}

/// Case folding leaves space runs alone.
proof fn lemma_space_run_lower(t: Seq<char>, from: int)
    ensures
        space_run(lower_seq(t), from) == space_run(t, from),
    decreases t.len() - from,
{
    if 0 <= from < t.len() {
        assert(lower_seq(t)[from] == lower_char(t[from]));
        assert(is_space_char(lower_char(t[from])) == is_space_char(t[from]));
        if is_space_char(t[from]) {
            lemma_space_run_lower(t, from + 1);
        }
    }
}

/// Case folding leaves letter runs alone.
proof fn lemma_alpha_run_lower(t: Seq<char>, from: int)
    ensures
        alpha_run(lower_seq(t), from) == alpha_run(t, from),
    decreases t.len() - from,
{
    if 0 <= from < t.len() {
        assert(lower_seq(t)[from] == lower_char(t[from]));
        assert(is_alpha_char(lower_char(t[from])) == is_alpha_char(t[from]));
        if is_alpha_char(t[from]) {
            lemma_alpha_run_lower(t, from + 1);
        }
    }
}

/// Case folding leaves a keyword-and-word matcher and its captured word
/// alone.
proof fn lemma_kw_word_lower(t: Seq<char>, kw: Seq<char>, at: int)
    ensures
        kw_word_at(lower_seq(t), kw, at) == kw_word_at(t, kw, at),
        kw_word_at(t, kw, at) ==> kw_word_token(lower_seq(t), kw, at) == kw_word_token(t, kw, at),
        kw_word_at(t, kw, at) ==> kw_word_end(lower_seq(t), kw, at) == kw_word_end(t, kw, at),
{
    lemma_match_kw_lower(t, kw, at);
    lemma_space_run_lower(t, at + kw.len());
    let p = kw_word_start(t, kw, at);
    lemma_alpha_run_lower(t, p);
    if kw_word_at(t, kw, at) {
        let q = p + alpha_run(t, p);
        assert(match_kw_at(t, kw, at));
        lemma_space_run_bound(t, at + kw.len());
        lemma_alpha_run_bound(t, p);
        assert(0 <= p && q <= t.len());
        crate::text::lemma_lower_seq_subrange(t, p, q);
        crate::text::lemma_lower_seq_idempotent(t.subrange(p, q));
    }
}

/// Parsing is insensitive to ASCII case: folding the input's case changes
/// nothing in the resulting action, whose captured words are already folded.
pub proof fn lemma_parse_case_insensitive(s: Seq<char>)
    ensures
        parse_spec(lower_seq(s)) == parse_spec(s),
{
    lemma_trim_lower(s);
    let t = trim_spec(s);
    let lt = lower_seq(t);
    lemma_match_kw_lower(t, "exit"@, 0);
    lemma_match_kw_lower(t, "quit"@, 0);
    lemma_match_kw_lower(t, "load"@, 0);
    lemma_match_kw_lower(t, "save"@, 0);
    lemma_match_kw_lower(t, "inventory"@, 0);
    lemma_match_kw_lower(t, "inv"@, 0);
    lemma_kw_word_lower(t, "move"@, 0);
    lemma_kw_word_lower(t, "go"@, 0);
    lemma_kw_word_lower(t, "take"@, 0);
    lemma_kw_word_lower(t, "get"@, 0);
    lemma_kw_word_lower(t, "use"@, 0);
    if kw_word_at(t, "use"@, 0) {
        let e = kw_word_end(t, "use"@, 0);
        lemma_space_run_lower(t, e);
        lemma_kw_word_lower(t, "on"@, e + space_run(t, e));
    }
}

/// Parsing is deterministic: it is a function of the input text alone, so
/// two equal input texts always parse to the same action.
pub proof fn lemma_parse_deterministic(s1: Seq<char>, s2: Seq<char>)
    requires
        s1 == s2,
    ensures
        parse_spec(s1) == parse_spec(s2),
{
}

/// The matchers short-circuit in their fixed priority order: whatever else
/// the text matches, the earliest matcher decides the action.
pub proof fn lemma_parse_priority(s: Seq<char>)
    ensures
        matches_exit(trim_spec(s)) ==> parse_spec(s) == ActionV::Exit,
        !matches_exit(trim_spec(s)) && matches_load(trim_spec(s)) ==> parse_spec(s)
            == ActionV::Load,
        !matches_exit(trim_spec(s)) && !matches_load(trim_spec(s)) && matches_save(trim_spec(s))
            ==> parse_spec(s) == ActionV::Save,
        !matches_exit(trim_spec(s)) && !matches_load(trim_spec(s)) && !matches_save(trim_spec(s))
            && matches_inventory(trim_spec(s)) ==> parse_spec(s) == ActionV::Inventory,
        !matches_exit(trim_spec(s)) && !matches_load(trim_spec(s)) && !matches_save(trim_spec(s))
            && !matches_inventory(trim_spec(s)) && matches_move(trim_spec(s)) ==> parse_spec(s)
            == ActionV::Move(move_token(trim_spec(s))),
        !matches_exit(trim_spec(s)) && !matches_load(trim_spec(s)) && !matches_save(trim_spec(s))
            && !matches_inventory(trim_spec(s)) && !matches_move(trim_spec(s)) && matches_take(
            trim_spec(s),
        ) ==> parse_spec(s) == ActionV::Take(take_token(trim_spec(s))),
        !matches_exit(trim_spec(s)) && !matches_load(trim_spec(s)) && !matches_save(trim_spec(s))
            && !matches_inventory(trim_spec(s)) && !matches_move(trim_spec(s)) && !matches_take(
            trim_spec(s),
        ) && matches_use(trim_spec(s)) ==> parse_spec(s) == ActionV::Use(
            use_subject(trim_spec(s)),
            use_target(trim_spec(s)),
        ),
{
}

} // verus!
