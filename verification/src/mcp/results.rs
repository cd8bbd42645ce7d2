//! Session-local bounded results. A handle never names an arbitrary path.
//!
//! Reading and writing files happens elsewhere. Here is where a result is kept,
//! what may be kept, and how a page is cut out of its bytes.
use vstd::prelude::*;
use vstd::string::*;
use vstd::utf8::*;

use crate::ids::{canonical, fresh, hyphenated, is_canonical};
use crate::paths::{absolute, joined_path};
use crate::session::store::{artifact, artifact_path};
use crate::text::{byte_len, dec, decimal, ends_with, opt_view, utf8_len};

verus! {

/// How many bytes a session's results may take on disk.
pub const DISK_BYTES: u64 = 8_388_608;

/// How long a result is kept, in nanoseconds.
pub const RETENTION_NANOS: u128 = 604_800_000_000_000;

/// How many bytes a page has at most.
pub const PAGE_BYTES: u64 = 6000;

/// Where a session's results are kept.
pub struct Store {
    directory: String,
}

impl View for Store {
    type V = Seq<char>;

    closed spec fn view(&self) -> Seq<char> {
        self.directory@
    }
}

impl Store {
    /// The results of a session.
    pub fn new(session: &str) -> (r: Store)
        ensures
            r@ == artifact(session@, "mcp-results"@, "mcp-results"@),
    {
        proof {
            reveal_strlit("mcp-results");
        }
        Store { directory: artifact_path(session, "mcp-results", "mcp-results") }
    }

    /// The directory.
    pub fn directory(&self) -> (r: &str)
        ensures
            r@ == self@,
    {
        self.directory.as_str()
    }
}

// ---- keeping ----------------------------------------------------------------

/// An entry of the directory: whether it is a plain file, how old in nanoseconds, and how long.
#[derive(Debug, Clone, Copy)]
pub struct StoredFile {
    pub is_file: bool,
    pub age_nanos: u128,
    pub len: u64,
}

/// Has a file been kept long enough?
pub open spec fn expired(f: StoredFile) -> bool {
    f.age_nanos > RETENTION_NANOS
}

/// `a + b`, or the largest number.
pub open spec fn add_up(a: u64, b: u64) -> u64 {
    if a + b <= u64::MAX {
        (a + b) as u64
    } else {
        u64::MAX
    }
}

/// How many bytes the first `n` files keep taking; nothing, where one of them is no
/// plain file.
pub open spec fn kept_bytes(files: Seq<StoredFile>, n: nat) -> Option<u64>
    decreases n,
{
    if n == 0 {
        Some(0)
    } else {
        match kept_bytes(files, (n - 1) as nat) {
            None => None,
            Some(b) => {
                let f = files[n - 1];
                if !f.is_file {
                    None
                } else if expired(f) {
                    Some(b)
                } else {
                    Some(add_up(b, f.len))
                }
            },
        }
    }
}

/// How many entries are looked at: all, or those before the first that is no plain file.
pub open spec fn looked_at(files: Seq<StoredFile>, from: nat) -> nat
    decreases files.len() - from,
{
    if from >= files.len() {
        files.len()
    } else if !files[from as int].is_file {
        from
    } else {
        looked_at(files, from + 1)
    }
}

/// The indexes of those among the first `n` files that have expired, in order.
pub open spec fn expired_among(files: Seq<StoredFile>, n: nat) -> Seq<usize>
    decreases n,
{
    if n == 0 {
        seq![]
    } else if expired(files[n - 1]) {
        expired_among(files, (n - 1) as nat).push((n - 1) as usize)
    } else {
        expired_among(files, (n - 1) as nat)
    }
}

/// Go through the directory: the indexes of the files to remove, because they have
/// expired, and how many bytes the others take. An entry that is no plain file makes the
/// directory unusable; what expired before it is removed all the same.
pub fn prepare(files: &Vec<StoredFile>) -> (r: (Vec<usize>, Result<u64, String>))
    ensures
        r.0@ == expired_among(files@, looked_at(files@, 0)),
        forall|k: int| 0 <= k < r.0@.len() ==> (#[trigger] r.0@[k]) < files@.len(),
        forall|a: int, b: int| 0 <= a < b < r.0@.len() ==> r.0@[a] < r.0@[b],
        match kept_bytes(files@, files@.len()) {
            Some(b) => r.1 == Ok::<u64, String>(b),
            None => r.1 matches Err(e) && e@ == "unexpected entry in result directory"@,
        },
{
    let mut bytes: u64 = 0;
    let mut gone: Vec<usize> = Vec::new();
    let mut i: usize = 0;
    assert(gone@ =~= seq![]);
    while i < files.len()
        invariant
            i <= files@.len(),
            kept_bytes(files@, i as nat) == Some(bytes),
            looked_at(files@, 0) == looked_at(files@, i as nat),
            gone@ == expired_among(files@, i as nat),
            forall|k: int| 0 <= k < gone@.len() ==> (#[trigger] gone@[k]) < i,
            forall|a: int, b: int| 0 <= a < b < gone@.len() ==> gone@[a] < gone@[b],
        decreases files.len() - i,
    {
        let f = files[i];
        if !f.is_file {
            proof {
                lemma_no_bytes(files@, (i + 1) as nat);
            }
            return (gone, Err("unexpected entry in result directory".to_owned()));
        }
        if f.age_nanos > RETENTION_NANOS {
            gone.push(i);
        } else {
            bytes = bytes.saturating_add(f.len);
        }
        i = i + 1;
    }
    (gone, Ok(bytes))
}

proof fn lemma_no_bytes(files: Seq<StoredFile>, n: nat)
    requires
        n <= files.len(),
        kept_bytes(files, n) is None,
    ensures
        kept_bytes(files, files.len()) is None,
    decreases files.len() - n,
{
    if n < files.len() {
        lemma_no_bytes(files, n + 1);
    }
}

/// The handle under which a result is written, where so many bytes are taken
/// already; or why it is not written. The handle is new, and one that can be read.
pub fn put(taken: u64, content: &str) -> (r: Result<String, String>)
    ensures
        r is Ok <==> taken + byte_len(content@) <= DISK_BYTES,
        r matches Ok(handle) ==> canonical(handle@) && hyphenated(handle@),
        r matches Err(e) ==> e@ == "session result disk cap (8 MiB) reached"@,
{
    let len = utf8_len(content);
    if taken > DISK_BYTES || len > (DISK_BYTES - taken) as u128 {
        return Err("session result disk cap (8 MiB) reached".to_owned());
    }
    Ok(fresh())
}

/// Why a handle cannot be read, if it cannot: only a canonical id names a result.
pub fn check_handle(handle: &str) -> (r: Option<String>)
    ensures
        opt_view(r) == if canonical(handle@) {
            None
        } else {
            Some("invalid result handle"@)
        },
        r is None ==> hyphenated(handle@),
{
    if is_canonical(handle) {
        None
    } else {
        Some("invalid result handle".to_owned())
    }
}

// ---- paging -----------------------------------------------------------------

/// Why a page cannot be read from there, if it cannot.
pub fn check_bounds(offset: u64, total: u64) -> (r: Option<String>)
    ensures
        opt_view(r) == if offset > total || total > DISK_BYTES {
            Some("offset or stored result exceeds bounds"@)
        } else {
            None
        },
{
    if offset > total || total > DISK_BYTES {
        Some("offset or stored result exceeds bounds".to_owned())
    } else {
        None
    }
}

/// Where to look back from an offset: three bytes before it, or at the start.
pub open spec fn look_from(offset: int) -> int {
    if offset < 3 {
        0
    } else {
        offset - 3
    }
}

/// Where to look back from an offset.
pub fn lookbehind(offset: u64) -> (r: u64)
    ensures
        r == look_from(offset as int),
{
    offset.saturating_sub(3)
}

/// The last index of `prefix` that does not continue a character, or 0.
pub open spec fn last_start(prefix: Seq<u8>, i: int) -> int
    decreases i,
{
    if i > 0 && is_continuation_byte(prefix[i]) {
        last_start(prefix, i - 1)
    } else {
        i
    }
}

/// Where a page begins, given the bytes from the look-behind up to and with the one
/// at the offset: at the character that holds the offset.
pub fn page_start(offset: u64, prefix: &Vec<u8>) -> (r: u64)
    requires
        prefix@.len() == offset - look_from(offset as int) + 1,
    ensures
        r == look_from(offset as int) + last_start(prefix@, prefix@.len() - 1),
        r <= offset,
{
    let back = lookbehind(offset);
    let mut i: usize = prefix.len() - 1;
    while i > 0 && 0x80 <= prefix[i] && prefix[i] <= 0xbf
        invariant
            i < prefix@.len(),
            prefix@.len() == offset - look_from(offset as int) + 1,
            last_start(prefix@, i as int) == last_start(prefix@, prefix@.len() - 1),
        decreases i,
    {
        i = i - 1;
    }
    back + i as u64
}

/// What `std::str::from_utf8` makes of some bytes.
pub struct Decoded {
    /// The text, where all of it decodes.
    pub text: Option<String>,
    /// How many bytes decode.
    pub valid: usize,
    /// The rest is a character that breaks off at the end.
    pub cut: bool,
}

/// `std::str::from_utf8` decodes the bytes where they are UTF-8. Where they are not,
/// it says how long the longest start is that is, and whether what follows is a
/// character that breaks off at the end of the input, as the last one of a chunk of
/// valid text does.
#[verifier::external_body]
fn from_utf8(bytes: &Vec<u8>) -> (r: Decoded)
    ensures
        r.text is Some <==> valid_utf8(bytes@),
        r.text matches Some(s) ==> s@ == decode_utf8(bytes@),
        r.valid <= bytes@.len(),
        valid_utf8(bytes@.subrange(0, r.valid as int)),
        forall|i: int|
            r.valid < i <= bytes@.len() ==> !valid_utf8(#[trigger] bytes@.subrange(0, i)),
        r.text is None ==> (r.cut <==> exists|more: Seq<u8>| #[trigger] valid_utf8(bytes@ + more)),
{
    match std::str::from_utf8(bytes) {
        Ok(s) => Decoded { text: Some(s.to_owned()), valid: bytes.len(), cut: false },
        Err(e) => Decoded { text: None, valid: e.valid_up_to(), cut: e.error_len().is_none() },
    }
}

/// A flag in words.
pub open spec fn yes_no(b: bool) -> Seq<char> {
    if b {
        "true"@
    } else {
        "false"@
    }
}

/// A page: its text, and a line that says where it stands and where to go on.
pub open spec fn page_shown(
    text: Seq<char>,
    start: nat,
    end: nat,
    total: nat,
    handle: Seq<char>,
) -> Seq<char> {
    text + "\n[bytes "@ + dec(start) + ".."@ + dec(end) + " of "@ + dec(total) + "; next_offset="@
        + (if end == total {
        "null"@
    } else {
        dec(end)
    }) + "; eof="@ + yes_no(end == total) + "; handle "@ + handle + "]"@
}

/// Write a page.
pub fn show_page(text: &str, start: u64, end: u64, total: u64, handle: &str) -> (r: String)
    ensures
        r@ == page_shown(text@, start as nat, end as nat, total as nat, handle@),
{
    let eof = end == total;
    let mut s = text.to_owned();
    s.append("\n[bytes ");
    let n = decimal(start as u128);
    s.append(n.as_str());
    s.append("..");
    let n = decimal(end as u128);
    s.append(n.as_str());
    s.append(" of ");
    let n = decimal(total as u128);
    s.append(n.as_str());
    s.append("; next_offset=");
    let next = if eof {
        "null".to_owned()
    } else {
        decimal(end as u128)
    };
    s.append(next.as_str());
    s.append("; eof=");
    s.append(
        if eof {
            "true"
        } else {
            "false"
        },
    );
    s.append("; handle ");
    s.append(handle);
    s.append("]");
    s
}

/// The length of the longest start of `b` that is UTF-8.
pub open spec fn longest_text(b: Seq<u8>, i: int) -> int
    decreases i,
{
    if i <= 0 || valid_utf8(b.subrange(0, i)) {
        i
    } else {
        longest_text(b, i - 1)
    }
}

proof fn lemma_longest_text(b: Seq<u8>, i: int, n: int)
    requires
        0 <= n <= i <= b.len(),
        valid_utf8(b.subrange(0, n)),
        forall|j: int| n < j <= i ==> !valid_utf8(#[trigger] b.subrange(0, j)),
    ensures
        longest_text(b, i) == n,
    decreases i,
{
    if i > n {
        assert(!valid_utf8(b.subrange(0, i)));
        lemma_longest_text(b, i - 1, n);
    } else if i == 0 {
    }
}

fn head(v: &Vec<u8>, n: usize) -> (r: Vec<u8>)
    requires
        n <= v@.len(),
    ensures
        r@ == v@.subrange(0, n as int),
{
    let mut r: Vec<u8> = Vec::new();
    let mut i: usize = 0;
    while i < n
        invariant
            i <= n <= v@.len(),
            r@ == v@.subrange(0, i as int),
        decreases n - i,
    {
        r.push(v[i]);
        i = i + 1;
        assert(r@ =~= v@.subrange(0, i as int));
    }
    r
}

/// Cut the page out of the bytes that were read from its start on: the longest text
/// among them. Bytes that are not the start of any text are refused.
pub fn page(window: &Vec<u8>, start: u64, total: u64, handle: &str) -> (r: Result<String, String>)
    requires
        start + window@.len() <= total,
    ensures
        r is Ok <==> exists|more: Seq<u8>| #[trigger] valid_utf8(window@ + more),
        r matches Ok(s) ==> {
            let n = longest_text(window@, window@.len() as int);
            s@ == page_shown(
                decode_utf8(window@.subrange(0, n)),
                start as nat,
                (start + n) as nat,
                total as nat,
                handle@,
            )
        },
        r matches Err(e) ==> e@ == "stored result contains invalid UTF-8"@,
{
    let d = from_utf8(window);
    proof {
        lemma_longest_text(window@, window@.len() as int, d.valid as int);
        assert(window@.subrange(0, window@.len() as int) =~= window@);
        if valid_utf8(window@) {
            assert(valid_utf8(window@.subrange(0, window@.len() as int)));
        }
    }
    match d.text {
        Some(text) => {
            let end: u64 = start + d.valid as u64;
            assert(d.valid == window@.len()) by {
                if d.valid < window@.len() {
                    assert(!valid_utf8(window@.subrange(0, window@.len() as int)));
                }
            }
            assert(window@ + seq![] =~= window@);
            assert(valid_utf8(window@ + seq![]));
            Ok(show_page(text.as_str(), start, end, total, handle))
        },
        None => {
            if !d.cut {
                return Err("stored result contains invalid UTF-8".to_owned());
            }
            let part = head(window, d.valid);
            let again = from_utf8(&part);
            match again.text {
                Some(text) => {
                    let end: u64 = start + d.valid as u64;
                    Ok(show_page(text.as_str(), start, end, total, handle))
                },
                None => Err("stored result contains invalid UTF-8".to_owned()),
            }
        },
    }
}

// ---- laws -------------------------------------------------------------------

/// A handle never resolves an arbitrary path: it names a file directly in the session's
/// own directory.
pub proof fn handles_are_no_paths(directory: Seq<char>, handle: Seq<char>)
    requires
        hyphenated(handle),
    ensures
        !handle.contains('/'),
        handle != "."@,
        handle != ".."@,
        directory.len() > 0 && directory.last() != '/' ==> joined_path(directory, handle)
            == directory + "/"@ + handle,
{
    assert forall|i: int| 0 <= i < handle.len() implies handle[i] != '/' by {
        assert(handle[i] == handle[i]);
    }
    reveal_strlit(".");
    reveal_strlit("..");
    reveal_strlit("/");
    assert("."@.len() == 1 && ".."@.len() == 2);
    if absolute(handle) {
        assert(handle.take(1)[0] == "/"@[0]);
        assert(handle[0] == '/');
    }
    if directory.len() > 0 && ends_with(directory, "/"@) {
        assert(directory.skip(directory.len() - 1)[0] == "/"@[0]);
    }
}

/// The bytes from the look-behind up to and with the one at the offset.
pub open spec fn prefix_at(b: Seq<u8>, offset: int) -> Seq<u8> {
    b.subrange(look_from(offset), offset + 1)
}

/// Where the page for an offset begins.
pub open spec fn starts_at(b: Seq<u8>, offset: int) -> int {
    if offset < b.len() {
        let p = prefix_at(b, offset);
        look_from(offset) + last_start(p, p.len() - 1)
    } else {
        offset
    }
}

/// The bytes that are read for a page that begins there.
pub open spec fn window_at(b: Seq<u8>, start: int) -> Seq<u8> {
    b.subrange(
        start,
        if start + PAGE_BYTES <= b.len() {
            start + PAGE_BYTES
        } else {
            b.len() as int
        },
    )
}

/// Where a page that begins there ends.
pub open spec fn ends_at(b: Seq<u8>, start: int) -> int {
    let w = window_at(b, start);
    start + longest_text(w, w.len() as int)
}

proof fn lemma_last_start(b: Seq<u8>, p: Seq<u8>, from: int, i: int)
    requires
        valid_utf8(b),
        0 <= from,
        0 <= i < p.len(),
        from + p.len() <= b.len(),
        p == b.subrange(from, from + p.len()),
    ensures
        0 <= last_start(p, i) <= i,
        forall|j: int|
            last_start(p, i) < j <= i ==> !is_char_boundary(b, #[trigger] (from + j)),
        last_start(p, i) > 0 ==> is_char_boundary(b, from + last_start(p, i)),
        last_start(p, i) == 0 && !is_continuation_byte(p[0]) ==> is_char_boundary(b, from),
    decreases i,
{
    is_char_boundary_iff_not_is_continuation_byte(b, from + i);
    assert(p[i] == b[from + i]);
    if i > 0 && is_continuation_byte(p[i]) {
        lemma_last_start(b, p, from, i - 1);
    } else if i == 0 {
        assert(p[0] == b[from]);
    }
}

/// Of any four bytes in a row, or fewer at the start of a text, one begins a
/// character.
proof fn lemma_boundary_near(b: Seq<u8>, i: int)
    requires
        valid_utf8(b),
        0 <= i < b.len(),
    ensures
        exists|j: int| look_from(i) <= j <= i && #[trigger] is_char_boundary(b, j),
    decreases b.len(),
{
    let n = length_of_first_scalar(b);
    let rest = pop_first_scalar(b);
    assert(is_char_boundary(b, 0));
    if i < n {
        assert(n <= 4);
        assert(look_from(i) == 0);
    } else {
        lemma_boundary_near(rest, i - n);
        let j = choose|j: int| look_from(i - n) <= j <= i - n && #[trigger] is_char_boundary(rest, j);
        if j >= 0 {
            assert(is_char_boundary(b, j + n));
            assert(look_from(i) <= j + n);
        }
    }
}

/// A page for any offset into a text begins at the character that holds the offset:
/// at a boundary, at most three bytes back, with no boundary in between.
pub proof fn a_page_begins_at_its_character(b: Seq<u8>, offset: int)
    requires
        valid_utf8(b),
        0 <= offset <= b.len(),
    ensures
        is_char_boundary(b, starts_at(b, offset)),
        offset - 3 <= starts_at(b, offset) <= offset,
        0 <= starts_at(b, offset),
        forall|j: int|
            starts_at(b, offset) < j <= offset ==> !#[trigger] is_char_boundary(b, j),
{
    is_char_boundary_start_end_of_seq(b);
    if offset < b.len() {
        let p = prefix_at(b, offset);
        let from = look_from(offset);
        lemma_last_start(b, p, from, p.len() - 1);
        lemma_boundary_near(b, offset);
        let s = last_start(p, p.len() - 1);
        let j = choose|j: int| from <= j <= offset && #[trigger] is_char_boundary(b, j);
        assert(j - from <= s) by {
            if j - from > s {
                assert(!is_char_boundary(b, from + (j - from)));
            }
        }
        if s == 0 {
            assert(j == from);
        }
        assert forall|k: int| starts_at(b, offset) < k <= offset implies !#[trigger] is_char_boundary(
            b,
            k,
        ) by {
            assert(!is_char_boundary(b, from + (k - from)));
        }
    }
}

proof fn lemma_boundary_inside(b: Seq<u8>, start: int, j: int)
    requires
        valid_utf8(b),
        is_char_boundary(b, start),
        0 <= start <= b.len(),
        0 <= j <= b.len() - start,
    ensures
        valid_utf8(b.subrange(start, start + j)) <==> is_char_boundary(b, start + j),
{
    let t = b.subrange(start, b.len() as int);
    valid_utf8_split(b, start);
    assert(valid_utf8(t));
    assert(b.subrange(start, start + j) =~= t.subrange(0, j));
    lemma_boundary_tail(b, start, j);
    lemma_prefix_valid(t, j);
}

proof fn lemma_boundary_tail(b: Seq<u8>, start: int, j: int)
    requires
        valid_utf8(b),
        is_char_boundary(b, start),
        0 <= start <= b.len(),
        0 <= j <= b.len() - start,
    ensures
        valid_utf8(b.subrange(start, b.len() as int)),
        is_char_boundary(b, start + j) <==> is_char_boundary(
            b.subrange(start, b.len() as int),
            j,
        ),
{
    let t = b.subrange(start, b.len() as int);
    valid_utf8_split(b, start);
    is_char_boundary_start_end_of_seq(b);
    is_char_boundary_start_end_of_seq(t);
    if j < t.len() {
        is_char_boundary_iff_not_is_continuation_byte(b, start + j);
        is_char_boundary_iff_not_is_continuation_byte(t, j);
        assert(t[j] == b[start + j]);
    }
}

/// A start of a text is a text itself exactly where it ends on a boundary.
proof fn lemma_prefix_valid(t: Seq<u8>, j: int)
    requires
        valid_utf8(t),
        0 <= j <= t.len(),
    ensures
        valid_utf8(t.subrange(0, j)) <==> is_char_boundary(t, j),
    decreases t.len(),
{
    is_char_boundary_start_end_of_seq(t);
    if is_char_boundary(t, j) {
        valid_utf8_split(t, j);
    } else {
        let p = t.subrange(0, j);
        if valid_utf8(p) {
            let n = length_of_first_scalar(t);
            assert(j > 0);
            assert(t[0] == p[0]);
            if j < n {
                assert(valid_first_scalar(p));
                assert(length_of_first_scalar(p) == n);
                assert(false);
            } else {
                let t2 = pop_first_scalar(t);
                let p2 = pop_first_scalar(p);
                lemma_first_scalar_same(t, p);
                assert(p2 =~= t2.subrange(0, j - n));
                lemma_prefix_valid(t2, j - n);
                assert(is_char_boundary(t, j));
            }
        }
    }
}

proof fn lemma_first_scalar_same(t: Seq<u8>, p: Seq<u8>)
    requires
        t.len() > 0,
        p.len() > 0,
        t[0] == p[0],
    ensures
        length_of_first_scalar(t) == length_of_first_scalar(p),
{
}

proof fn lemma_longest_bounds(w: Seq<u8>, i: int)
    requires
        0 <= i <= w.len(),
    ensures
        0 <= longest_text(w, i) <= i,
        valid_utf8(w.subrange(0, longest_text(w, i))),
        forall|j: int|
            longest_text(w, i) < j <= i ==> !valid_utf8(#[trigger] w.subrange(0, j)),
    decreases i,
{
    if i <= 0 {
        assert(w.subrange(0, 0) =~= seq![]);
    } else if valid_utf8(w.subrange(0, i)) {
    } else {
        lemma_longest_bounds(w, i - 1);
    }
}

/// The pages of a text join up. A page that begins on a boundary is never refused,
/// ends on a boundary, moves on unless the text is at its end, and holds exactly the
/// characters between: what was read, this page, and what is left make the text.
pub proof fn pages_join_up(b: Seq<u8>, start: int)
    requires
        valid_utf8(b),
        is_char_boundary(b, start),
        0 <= start <= b.len(),
    ensures
        is_char_boundary(b, ends_at(b, start)),
        start <= ends_at(b, start) <= b.len(),
        start < b.len() ==> start < ends_at(b, start),
        exists|more: Seq<u8>| #[trigger] valid_utf8(window_at(b, start) + more),
        decode_utf8(b.subrange(0, ends_at(b, start))) == decode_utf8(b.subrange(0, start))
            + decode_utf8(b.subrange(start, ends_at(b, start))),
        window_at(b, start).subrange(0, ends_at(b, start) - start) == b.subrange(
            start,
            ends_at(b, start),
        ),
        starts_at(b, ends_at(b, start)) == ends_at(b, start),
{
    let w = window_at(b, start);
    let m = w.len() as int;
    let n = longest_text(w, m);
    lemma_longest_bounds(w, m);
    assert(w.subrange(0, n) =~= b.subrange(start, start + n));
    lemma_boundary_inside(b, start, n);
    let end = start + n;
    assert(is_char_boundary(b, end));
    let rest = b.subrange(start + m, b.len() as int);
    valid_utf8_split(b, start);
    assert(w + rest =~= b.subrange(start, b.len() as int));
    assert(valid_utf8(w + rest));
    if start < b.len() {
        lemma_next_boundary(b, start);
        let k = choose|k: int| start < k <= start + 4 && k <= b.len() && #[trigger] is_char_boundary(b, k);
        if k - start > n {
            assert(k - start <= m);
            lemma_boundary_inside(b, start, k - start);
            assert(w.subrange(0, k - start) =~= b.subrange(start, k));
            assert(!valid_utf8(w.subrange(0, k - start)));
        }
    }
    let front = b.subrange(0, end);
    valid_utf8_split(b, end);
    assert(valid_utf8(front));
    is_char_boundary_start_end_of_seq(front);
    is_char_boundary_start_end_of_seq(b);
    assert(is_char_boundary(front, start)) by {
        if start < end {
            is_char_boundary_iff_not_is_continuation_byte(b, start);
            is_char_boundary_iff_not_is_continuation_byte(front, start);
            assert(front[start] == b[start]);
        }
    }
    decode_utf8_split(front, start);
    assert(front.subrange(0, start) =~= b.subrange(0, start));
    assert(front.subrange(start, end) =~= b.subrange(start, end));
    a_page_begins_at_its_character(b, end);
}

proof fn lemma_next_boundary(b: Seq<u8>, start: int)
    requires
        valid_utf8(b),
        is_char_boundary(b, start),
        0 <= start < b.len(),
    ensures
        exists|k: int| start < k <= start + 4 && k <= b.len() && #[trigger] is_char_boundary(b, k),
{
    let t = b.subrange(start, b.len() as int);
    valid_utf8_split(b, start);
    let n = length_of_first_scalar(t);
    assert(1 <= n <= 4);
    assert(n <= t.len());
    assert(is_char_boundary(t, n)) by {
        is_char_boundary_start_end_of_seq(pop_first_scalar(t));
        reveal_with_fuel(is_char_boundary, 2);
    }
    lemma_boundary_tail(b, start, n);
    assert(is_char_boundary(b, start + n));
}

} // verus!
