//! Turning the lines of a completed response into a typed result.
//!
//! The grammar is the one the protocol uses for folder summaries and status
//! lines: an untagged line may carry a decimal count immediately followed by
//! the token `EXISTS` or `RECENT`, or the token `UIDVALIDITY` or `UIDNEXT`
//! immediately followed by a decimal number; a tagged terminator line carries
//! a status token `OK`, `NO` or `BAD` right after its tag.  Matching is
//! substring matching, leftmost occurrence first, with a maximal digit run;
//! a value wider than a machine word saturates.

use vstd::prelude::*;
use vstd::string::*;
use crate::command::IMAPCommand;
use crate::error::IMAPError;
use crate::line::IMAPLine;

verus! {

/// The four counters of a folder summary.
#[derive(Clone, Copy, PartialEq, Eq, Structural, Debug)]
pub struct Folder {
    pub exists: u64,
    pub recent: u64,
    pub uidvaildity: u64,
    pub uidnext: u64,
}

/// The envelope fields of one message, as ordered text tokens.
pub struct Envelop {
    pub title: String,
    pub date: String,
    pub from: Vec<String>,
    pub to: Vec<String>,
    pub cc: Vec<String>,
}

/// The typed result of one completed response.
pub enum IMAPResult {
    IMAPOk,
    IMAPNo,
    IMAPBad,
    IMAPFolder { recent: u64, exists: u64, uidvaildity: u64, uidnext: u64 },
    IMAPMessage { flags: Vec<String>, size: u64, internal_date: String, envelop: Envelop },
}

/// A decimal digit.
pub open spec fn is_digit(c: char) -> bool {
    48 <= c as u32 <= 57
}

/// The value of one digit.
pub open spec fn digit_val(c: char) -> nat {
    (c as u32 - 48) as nat
}

/// The value of a run of digits, most significant first.
pub open spec fn digits_val(s: Seq<char>) -> nat
    decreases s.len(),
{
    if s.len() == 0 {
        0
    } else {
        digits_val(s.drop_last()) * 10 + digit_val(s.last())
    }
}

/// A mathematical value clipped to a machine word.
pub open spec fn sat_u64(n: nat) -> u64 {
    if n > u64::MAX {
        u64::MAX
    } else {
        n as u64
    }
}

pub open spec fn exists_word() -> Seq<char> {
    seq!['E', 'X', 'I', 'S', 'T', 'S']
}

pub open spec fn recent_word() -> Seq<char> {
    seq!['R', 'E', 'C', 'E', 'N', 'T']
}

pub open spec fn uidvalidity_word() -> Seq<char> {
    seq!['U', 'I', 'D', 'V', 'A', 'L', 'I', 'D', 'I', 'T', 'Y']
}

pub open spec fn uidnext_word() -> Seq<char> {
    seq!['U', 'I', 'D', 'N', 'E', 'X', 'T']
}

pub open spec fn ok_word() -> Seq<char> {
    seq!['O', 'K']
}

pub open spec fn no_word() -> Seq<char> {
    seq!['N', 'O']
}

pub open spec fn bad_word() -> Seq<char> {
    seq!['B', 'A', 'D']
}

/// The word occurs in the text at position `i`.
pub open spec fn word_at(s: Seq<char>, i: int, w: Seq<char>) -> bool {
    0 <= i && i + w.len() <= s.len() && s.subrange(i, i + w.len() as int) == w
}

/// The count pattern — a digit, a space, then `EXISTS` or `RECENT` — matches
/// with its space at position `m`.
pub open spec fn count_pat_at(s: Seq<char>, m: int) -> bool {
    &&& 1 <= m < s.len()
    &&& s[m] == ' '
    &&& is_digit(s[m - 1])
    &&& (word_at(s, m + 1, exists_word()) || word_at(s, m + 1, recent_word()))
}

/// The position of the leftmost count match at or after `m`, if any.
pub open spec fn first_count_pos_from(s: Seq<char>, m: int) -> Option<int>
    decreases s.len() - m
        when 0 <= m <= s.len()
{
    if m >= s.len() {
        None
    } else if count_pat_at(s, m) {
        Some(m)
    } else {
        first_count_pos_from(s, m + 1)
    }
}

/// The start of the maximal digit run that ends just before position `e`.
pub open spec fn digit_run_start(s: Seq<char>, e: int) -> int
    decreases e
        when 0 <= e <= s.len()
{
    if e > 0 && is_digit(s[e - 1]) {
        digit_run_start(s, e - 1)
    } else {
        e
    }
}

/// The end of the maximal digit run that starts at position `b`.
pub open spec fn digit_run_end(s: Seq<char>, b: int) -> int
    decreases s.len() - b
        when 0 <= b <= s.len()
{
    if b < s.len() && is_digit(s[b]) {
        digit_run_end(s, b + 1)
    } else {
        b
    }
}

/// The verdict of the count pattern on one line: which counter was matched
/// (true for `EXISTS`) and the matched value.
pub open spec fn count_match(s: Seq<char>) -> Option<(bool, u64)> {
    match first_count_pos_from(s, 0) {
        None => None,
        Some(m) => Some(
            (
                word_at(s, m + 1, exists_word()),
                sat_u64(digits_val(s.subrange(digit_run_start(s, m), m))),
            ),
        ),
    }
}

/// The uid pattern — `UIDVALIDITY` or `UIDNEXT`, a space, then a digit —
/// matches with its word starting at position `i`.
pub open spec fn uid_word_pat_at(s: Seq<char>, i: int, w: Seq<char>) -> bool {
    &&& word_at(s, i, w)
    &&& i + w.len() + 1 < s.len()
    &&& s[i + w.len()] == ' '
    &&& is_digit(s[i + w.len() + 1])
}

pub open spec fn uid_pat_at(s: Seq<char>, i: int) -> bool {
    uid_word_pat_at(s, i, uidvalidity_word()) || uid_word_pat_at(s, i, uidnext_word())
}

/// The position of the leftmost uid match at or after `i`, if any.
pub open spec fn first_uid_pos_from(s: Seq<char>, i: int) -> Option<int>
    decreases s.len() - i
        when 0 <= i <= s.len()
{
    if i >= s.len() {
        None
    } else if uid_pat_at(s, i) {
        Some(i)
    } else {
        first_uid_pos_from(s, i + 1)
    }
}

/// The verdict of the uid pattern on one line: which field was matched (true
/// for `UIDVALIDITY`) and the matched value.
pub open spec fn uid_match(s: Seq<char>) -> Option<(bool, u64)> {
    match first_uid_pos_from(s, 0) {
        None => None,
        Some(i) => {
            let v = uid_word_pat_at(s, i, uidvalidity_word());
            let b = if v {
                i + uidvalidity_word().len() + 1
            } else {
                i + uidnext_word().len() + 1
            };
            Some((v, sat_u64(digits_val(s.subrange(b, digit_run_end(s, b))))))
        },
    }
}

/// One line's effect on the folder summary: a tagged line is skipped, an
/// untagged line overwrites the counter of each pattern it matches.
pub open spec fn folder_update(f: Folder, l: IMAPLine) -> Folder {
    if l.tagged {
        f
    } else {
        let f1 = match count_match(l.raw@) {
            Some(cm) => if cm.0 {
                Folder { exists: cm.1, ..f }
            } else {
                Folder { recent: cm.1, ..f }
            },
            None => f,
        };
        match uid_match(l.raw@) {
            Some(um) => if um.0 {
                Folder { uidvaildity: um.1, ..f1 }
            } else {
                Folder { uidnext: um.1, ..f1 }
            },
            None => f1,
        }
    }
}

/// The folder summary of a whole response: every line scanned in order, later
/// matches overwriting earlier ones, unmatched fields left at zero.
pub open spec fn folder_scan(lines: Seq<IMAPLine>) -> Folder
    decreases lines.len(),
{
    if lines.len() == 0 {
        Folder { exists: 0, recent: 0, uidvaildity: 0, uidnext: 0 }
    } else {
        folder_update(folder_scan(lines.drop_last()), lines.last())
    }
}

/// The position of the first space at or after `i`, or the length of the text
/// when there is none.
pub open spec fn first_space_from(s: Seq<char>, i: int) -> int
    decreases s.len() - i
        when 0 <= i <= s.len()
{
    if i >= s.len() {
        i
    } else if s[i] == ' ' {
        i
    } else {
        first_space_from(s, i + 1)
    }
}

/// The status token of a terminator line: the run between the first space and
/// the following space or end of line; empty when the line has no space.
pub open spec fn status_token(s: Seq<char>) -> Seq<char> {
    let a = first_space_from(s, 0);
    if a >= s.len() {
        Seq::empty()
    } else {
        s.subrange(a + 1, first_space_from(s, a + 1))
    }
}

/// The status a terminator line reports, if its token is one of the three the
/// protocol allows.
pub open spec fn status_of(s: Seq<char>) -> Option<IMAPResult> {
    let t = status_token(s);
    if t == ok_word() {
        Some(IMAPResult::IMAPOk)
    } else if t == no_word() {
        Some(IMAPResult::IMAPNo)
    } else if t == bad_word() {
        Some(IMAPResult::IMAPBad)
    } else {
        None
    }
}

/// Decide one digit.
fn is_digit_char(c: char) -> (r: bool)
    ensures
        r == is_digit(c),
{
    let u = c as u32;
    48 <= u && u <= 57
}

/// Compare the needle against the text at position `i`.
fn word_at_str(s: &str, i: usize, w: &str) -> (r: bool)
    ensures
        r == word_at(s@, i as int, w@),
{
    let n = s.unicode_len();
    let m = w.unicode_len();
    if i > n || n - i < m {
        return false;
    }
    let mut j: usize = 0;
    while j < m
        invariant
            j <= m,
            i + m <= n,
            n == s@.len(),
            m == w@.len(),
            forall|k: int| 0 <= k < j ==> s@[i + k] == w@[k],
        decreases m - j,
    {
        if s.get_char(i + j) != w.get_char(j) {
            proof {
                assert(s@.subrange(i as int, i + m as int)[j as int] != w@[j as int]);
            }
            return false;
        }
        j += 1;
    }
    proof {
        assert(s@.subrange(i as int, i + m as int) =~= w@);
    }
    true
}

/// The start of the digit run ending just before `e`, walking left.
fn find_run_start(s: &str, e: usize) -> (k: usize)
    requires
        e <= s@.len(),
    ensures
        k as int == digit_run_start(s@, e as int),
    decreases e,
{
    if e > 0 {
        let c = s.get_char(e - 1);
        if is_digit_char(c) {
            return find_run_start(s, e - 1);
        }
    }
    e
}

/// The end of the digit run starting at `b`, walking right.
fn find_run_end(s: &str, b: usize) -> (e: usize)
    requires
        b <= s@.len(),
    ensures
        e as int == digit_run_end(s@, b as int),
        e <= s@.len(),
    decreases s@.len() - b,
{
    let n = s.unicode_len();
    if b < n {
        let c = s.get_char(b);
        if is_digit_char(c) {
            return find_run_end(s, b + 1);
        }
    }
    b
}

proof fn lemma_digit_run_start_props(s: Seq<char>, e: int)
    requires
        0 <= e <= s.len(),
    ensures
        0 <= digit_run_start(s, e) <= e,
        forall|j: int| digit_run_start(s, e) <= j < e ==> is_digit(#[trigger] s[j]),
    decreases e,
{
    if e > 0 && is_digit(s[e - 1]) {
        lemma_digit_run_start_props(s, e - 1);
    }
}

proof fn lemma_digit_run_end_props(s: Seq<char>, b: int)
    requires
        0 <= b <= s.len(),
    ensures
        b <= digit_run_end(s, b) <= s.len(),
        forall|j: int| b <= j < digit_run_end(s, b) ==> is_digit(#[trigger] s[j]),
    decreases s.len() - b,
{
    if b < s.len() && is_digit(s[b]) {
        lemma_digit_run_end_props(s, b + 1);
    }
}

/// Parse a digit run as a decimal number, clipping at the largest machine
/// value.
fn parse_digits_sat(s: &str, a: usize, b: usize) -> (v: u64)
    requires
        a <= b <= s@.len(),
        forall|k: int| a <= k < b ==> is_digit(#[trigger] s@[k]),
    ensures
        v == sat_u64(digits_val(s@.subrange(a as int, b as int))),
{
    let mut acc: u64 = 0;
    let mut j: usize = a;
    proof {
        assert(s@.subrange(a as int, a as int) =~= Seq::<char>::empty());
    }
    while j < b
        invariant
            a <= j <= b <= s@.len(),
            forall|k: int| a <= k < b ==> is_digit(#[trigger] s@[k]),
            acc == sat_u64(digits_val(s@.subrange(a as int, j as int))),
        decreases b - j,
    {
        let c = s.get_char(j);
        let d: u64 = (c as u32 - 48) as u64;
        let next = match acc.checked_mul(10) {
            Some(x) => match x.checked_add(d) {
                Some(y) => y,
                None => u64::MAX,
            },
            None => u64::MAX,
        };
        proof {
            let pre = s@.subrange(a as int, j as int);
            let post = s@.subrange(a as int, j + 1 as int);
            assert(post.drop_last() =~= pre);
            assert(post.last() == s@[j as int]);
            let full = digits_val(pre);
            assert(digits_val(post) == full * 10 + digit_val(s@[j as int]));
            if full > u64::MAX {
                assert(full * 10 + digit_val(s@[j as int]) > u64::MAX);
            }
            assert(next == sat_u64(digits_val(post)));
        }
        acc = next;
        j += 1;
    }
    proof {
        assert(s@.subrange(a as int, j as int) =~= s@.subrange(a as int, b as int));
    }
    acc
}

/// Scan one line for the leftmost count match.
fn find_count_pos(s: &str) -> (r: Option<usize>)
    ensures
        match r {
            Some(m) => m < s@.len() && first_count_pos_from(s@, 0) == Some(m as int),
            None => first_count_pos_from(s@, 0) is None,
        },
{
    let n = s.unicode_len();
    let mut m: usize = 0;
    while m < n
        invariant
            m <= n,
            n == s@.len(),
            first_count_pos_from(s@, 0) == first_count_pos_from(s@, m as int),
        decreases n - m,
    {
        let mut hit = false;
        if m >= 1 && s.get_char(m) == ' ' {
            if is_digit_char(s.get_char(m - 1)) {
                hit = word_at_str(s, m + 1, "EXISTS") || word_at_str(s, m + 1, "RECENT");
            }
        }
        proof {
            reveal_strlit("EXISTS");
            reveal_strlit("RECENT");
            assert("EXISTS"@ =~= exists_word());
            assert("RECENT"@ =~= recent_word());
            assert(hit == count_pat_at(s@, m as int));
        }
        if hit {
            return Some(m);
        }
        m += 1;
    }
    None
}

/// The count verdict of one line.
fn count_match_line(s: &str) -> (r: Option<(bool, u64)>)
    ensures
        r == count_match(s@),
{
    let n = s.unicode_len();
    match find_count_pos(s) {
        None => None,
        Some(m) => {
            let is_exists = word_at_str(s, m + 1, "EXISTS");
            proof {
                reveal_strlit("EXISTS");
                assert("EXISTS"@ =~= exists_word());
                lemma_digit_run_start_props(s@, m as int);
            }
            let k = find_run_start(s, m);
            let v = parse_digits_sat(s, k, m);
            Some((is_exists, v))
        },
    }
}

/// Check the uid pattern with one of its two words at position `i`.
fn uid_pat_check(s: &str, i: usize, w: &str) -> (r: bool)
    ensures
        r == uid_word_pat_at(s@, i as int, w@),
{
    if !word_at_str(s, i, w) {
        return false;
    }
    let n = s.unicode_len();
    let wl = w.unicode_len();
    let rest = n - (i + wl);
    if rest < 2 {
        return false;
    }
    if s.get_char(i + wl) != ' ' {
        return false;
    }
    is_digit_char(s.get_char(i + wl + 1))
}

/// Scan one line for the leftmost uid match.
fn find_uid_pos(s: &str) -> (r: Option<usize>)
    ensures
        match r {
            Some(i) => i < s@.len() && first_uid_pos_from(s@, 0) == Some(i as int),
            None => first_uid_pos_from(s@, 0) is None,
        },
{
    let n = s.unicode_len();
    let mut i: usize = 0;
    while i < n
        invariant
            i <= n,
            n == s@.len(),
            first_uid_pos_from(s@, 0) == first_uid_pos_from(s@, i as int),
        decreases n - i,
    {
        let hit_v = uid_pat_check(s, i, "UIDVALIDITY");
        let hit_n = uid_pat_check(s, i, "UIDNEXT");
        proof {
            reveal_strlit("UIDVALIDITY");
            reveal_strlit("UIDNEXT");
            assert("UIDVALIDITY"@ =~= uidvalidity_word());
            assert("UIDNEXT"@ =~= uidnext_word());
            assert((hit_v || hit_n) == uid_pat_at(s@, i as int));
        }
        if hit_v || hit_n {
            return Some(i);
        }
        i += 1;
    }
    None
}

/// The position a uid scan finds satisfies the pattern.
proof fn lemma_first_uid_pos_pat(s: Seq<char>, m: int)
    requires
        0 <= m <= s.len(),
        first_uid_pos_from(s, m) is Some,
    ensures
        m <= first_uid_pos_from(s, m).unwrap() < s.len(),
        uid_pat_at(s, first_uid_pos_from(s, m).unwrap()),
    decreases s.len() - m,
{
    if m < s.len() && !uid_pat_at(s, m) {
        lemma_first_uid_pos_pat(s, m + 1);
    }
}

/// The uid verdict of one line.
fn uid_match_line(s: &str) -> (r: Option<(bool, u64)>)
    ensures
        r == uid_match(s@),
{
    let n = s.unicode_len();
    match find_uid_pos(s) {
        None => None,
        Some(i) => {
            let isv = uid_pat_check(s, i, "UIDVALIDITY");
            proof {
                reveal_strlit("UIDVALIDITY");
                reveal_strlit("UIDNEXT");
                assert("UIDVALIDITY"@ =~= uidvalidity_word());
                assert("UIDNEXT"@ =~= uidnext_word());
                lemma_first_uid_pos_pat(s@, 0);
            }
            let b = if isv {
                i + 12
            } else {
                i + 8
            };
            let e = find_run_end(s, b);
            proof {
                lemma_digit_run_end_props(s@, b as int);
            }
            let v = parse_digits_sat(s, b, e);
            Some((isv, v))
        },
    }
}

/// Extract the folder summary from the lines of a completed response.
pub fn parse_select_lines(lines: &Vec<IMAPLine>) -> (f: Folder)
    ensures
        f == folder_scan(lines@),
{
    let mut f = Folder { exists: 0, recent: 0, uidvaildity: 0, uidnext: 0 };
    let mut i: usize = 0;
    proof {
        assert(lines@.subrange(0, 0) =~= Seq::<IMAPLine>::empty());
    }
    while i < lines.len()
        invariant
            i <= lines@.len(),
            f == folder_scan(lines@.subrange(0, i as int)),
        decreases lines@.len() - i,
    {
        let ghost pre_f = f;
        let line = &lines[i];
        if !line.tagged {
            match count_match_line(line.raw.as_str()) {
                Some(cm) => {
                    if cm.0 {
                        f.exists = cm.1;
                    } else {
                        f.recent = cm.1;
                    }
                },
                None => {},
            }
            match uid_match_line(line.raw.as_str()) {
                Some(um) => {
                    if um.0 {
                        f.uidvaildity = um.1;
                    } else {
                        f.uidnext = um.1;
                    }
                },
                None => {},
            }
        }
        proof {
            assert(f == folder_update(pre_f, lines@[i as int]));
            assert(lines@.subrange(0, i + 1).drop_last() =~= lines@.subrange(0, i as int));
            assert(lines@.subrange(0, i + 1).last() == lines@[i as int]);
        }
        i += 1;
    }
    proof {
        assert(lines@.subrange(0, lines@.len() as int) =~= lines@);
    }
    f
}

/// The status token of a terminator line, mapped to its typed result.
pub fn parse_status_line(s: &str) -> (r: Option<IMAPResult>)
    ensures
        r == status_of(s@),
{
    let n = s.unicode_len();
    let a = find_space_from_exec(s, 0);
    if a >= n {
        proof {
            assert(status_token(s@) =~= Seq::<char>::empty());
        }
        return None;
    }
    let b = find_space_from_exec(s, a + 1);
    let toklen = b - (a + 1);
    let mut r: Option<IMAPResult> = None;
    if toklen == 2 && word_at_str(s, a + 1, "OK") {
        r = Some(IMAPResult::IMAPOk);
    } else if toklen == 2 && word_at_str(s, a + 1, "NO") {
        r = Some(IMAPResult::IMAPNo);
    } else if toklen == 3 && word_at_str(s, a + 1, "BAD") {
        r = Some(IMAPResult::IMAPBad);
    }
    proof {
        reveal_strlit("OK");
        reveal_strlit("NO");
        reveal_strlit("BAD");
        assert("OK"@ =~= ok_word());
        assert("NO"@ =~= no_word());
        assert("BAD"@ =~= bad_word());
        let t = status_token(s@);
        assert(t == s@.subrange(a + 1, b as int));
        assert(t.len() == b - (a + 1));
        if toklen == 2 {
            assert(t =~= s@.subrange(a + 1, a + 1 + 2));
        }
        if toklen == 3 {
            assert(t =~= s@.subrange(a + 1, a + 1 + 3));
        }
    }
    r
}

/// The position of the first space at or after `i`.
fn find_space_from_exec(s: &str, i: usize) -> (r: usize)
    requires
        i <= s@.len(),
    ensures
        r as int == first_space_from(s@, i as int),
        i <= r <= s@.len(),
    decreases s@.len() - i,
{
    let n = s.unicode_len();
    if i < n {
        if s.get_char(i) == ' ' {
            return i;
        }
        return find_space_from_exec(s, i + 1);
    }
    i
}

/// The message fields of the placeholder extraction: everything empty.
pub open spec fn message_placeholder(r: IMAPResult) -> bool {
    r matches IMAPResult::IMAPMessage { flags, size, internal_date, envelop } && {
        &&& flags@.len() == 0
        &&& size == 0
        &&& internal_date@.len() == 0
        &&& envelop.title@.len() == 0
        &&& envelop.date@.len() == 0
        &&& envelop.from@.len() == 0
        &&& envelop.to@.len() == 0
        &&& envelop.cc@.len() == 0
    }
}

/// Whether the parsing rule for this command kind succeeds on these lines.
pub open spec fn parse_ok(cmd: IMAPCommand, lines: Seq<IMAPLine>) -> bool {
    match cmd {
        IMAPCommand::Greeting => true,
        IMAPCommand::Login | IMAPCommand::Authenticate => lines.len() > 0 && status_of(
            lines.last().raw@,
        ) is Some,
        IMAPCommand::Select | IMAPCommand::Examine => true,
        IMAPCommand::Fetch => true,
        IMAPCommand::Logout => false,
    }
}

/// What the result of a successful parse is.
pub open spec fn result_matches(cmd: IMAPCommand, lines: Seq<IMAPLine>, r: IMAPResult) -> bool {
    match cmd {
        IMAPCommand::Greeting => r matches IMAPResult::IMAPOk,
        IMAPCommand::Login | IMAPCommand::Authenticate => lines.len() > 0 && status_of(
            lines.last().raw@,
        ) == Some(r),
        IMAPCommand::Select | IMAPCommand::Examine => {
            let f = folder_scan(lines);
            r matches IMAPResult::IMAPFolder { recent, exists, uidvaildity, uidnext } && {
                &&& recent == f.recent
                &&& exists == f.exists
                &&& uidvaildity == f.uidvaildity
                &&& uidnext == f.uidnext
            }
        },
        IMAPCommand::Fetch => message_placeholder(r),
        IMAPCommand::Logout => false,
    }
}

/// Parse a completed response, dispatching on the command kind of its first
/// line.  Greeting, Select, Examine and Fetch always succeed; Login and
/// Authenticate succeed exactly when the terminator's status token is OK, NO
/// or BAD; any other kind has no rule here and is refused.
pub fn parse_lines(lines: &Vec<IMAPLine>) -> (r: Result<IMAPResult, IMAPError>)
    requires
        lines@.len() > 0,
    ensures
        match r {
            Ok(res) => parse_ok(lines@[0].command, lines@) && result_matches(
                lines@[0].command,
                lines@,
                res,
            ),
            Err(e) => !parse_ok(lines@[0].command, lines@) && (e matches IMAPError::ProtocolError),
        },
{
    let cmd = lines[0].command;
    match cmd {
        IMAPCommand::Greeting => Ok(IMAPResult::IMAPOk),
        IMAPCommand::Login | IMAPCommand::Authenticate => {
            let last = &lines[lines.len() - 1];
            proof {
                assert(lines@.last() == lines@[lines@.len() - 1]);
            }
            match parse_status_line(last.raw.as_str()) {
                Some(res) => Ok(res),
                None => Err(IMAPError::ProtocolError),
            }
        },
        IMAPCommand::Select | IMAPCommand::Examine => {
            let f = parse_select_lines(lines);
            Ok(
                IMAPResult::IMAPFolder {
                    recent: f.recent,
                    exists: f.exists,
                    uidvaildity: f.uidvaildity,
                    uidnext: f.uidnext,
                },
            )
        },
        IMAPCommand::Fetch => Ok(
            IMAPResult::IMAPMessage {
                flags: Vec::new(),
                size: 0,
                internal_date: String::new(),
                envelop: Envelop {
                    title: String::new(),
                    date: String::new(),
                    from: Vec::new(),
                    to: Vec::new(),
                    cc: Vec::new(),
                },
            },
        ),
        IMAPCommand::Logout => Err(IMAPError::ProtocolError),
    }
}

} // verus!
