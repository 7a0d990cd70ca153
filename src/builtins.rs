//! Built-in middleware: request logging, CORS headers and static files.
//! Their file-system and logging work happens around the library; the
//! decisions they make stand here.
use vstd::prelude::*;
use vstd::string::StringSliceAdditionalSpecFns;
use vstd::utf8::{encode_utf8, is_char_boundary};
use crate::headers::inserted;
use crate::response::{HeaderError, Response, check_header_value, date_added, typed_headers, valid_header_value};
use crate::routing::trim_end;
use crate::text::{bytes_equal, lower_seq};
use crate::wire::{allow_origin_name, allow_origin_name_bytes, forbidden_text, forbidden_text_bytes, not_found_text, not_found_text_bytes, server_error_text, server_error_text_bytes, text_plain, text_plain_bytes};

verus! {

/// Logs the method and path of each request and passes it on.
#[derive(Debug, Clone, Copy, PartialEq, Eq, Structural)]
pub struct Logger;

/// Adds `Access-Control-Allow-Origin` to responses: the configured origin, or `*`.
#[derive(Debug, Clone, Default)]
pub struct Cors(pub Option<String>);

impl Cors {
    /// CORS for one allowed origin.
    pub fn new(origin: String) -> (r: Cors)
        ensures
            r.0 == Some(origin),
    {
        Cors(Some(origin))
    }

    /// CORS for any origin.
    pub fn any() -> (r: Cors)
        ensures
            r.0 is None,
    {
        Cors(None)
    }

    /// The origin that responses allow.
    pub open spec fn origin_bytes(&self) -> Seq<u8> {
        match self.0 {
            Some(o) => encode_utf8(o@),
            None => seq![42u8],
        }
    }

    /// Sets `Access-Control-Allow-Origin` on a response.
    pub fn apply(&self, response: &mut Response) -> (r: Result<(), HeaderError>)
        requires
            old(response).wf(),
        ensures
            final(response).wf(),
            final(response).status == old(response).status,
            final(response).body == old(response).body,
            valid_header_value(self.origin_bytes()) ==> r is Ok
                && final(response).headers@ == inserted(old(response).headers@, allow_origin_name(), self.origin_bytes()),
            !valid_header_value(self.origin_bytes()) ==> r == Err::<(), HeaderError>(HeaderError::InvalidHeaderValue)
                && final(response).headers@ == old(response).headers@,
    {
        let star: Vec<u8> = vec![42u8];
        assert(star@ =~= seq![42u8]);
        let value: &[u8] = match &self.0 {
            Some(o) => o.as_str().as_bytes(),
            None => star.as_slice(),
        };
        if !check_header_value(value) {
            return Err(HeaderError::InvalidHeaderValue);
        }
        let name = allow_origin_name_bytes();
        proof {
            assert(lower_seq(allow_origin_name()) =~= allow_origin_name());
        }
        response.headers.insert_bytes(name.as_slice(), value);
        Ok(())
    }
}

/// Serves files below a base directory.
#[derive(Debug, Clone)]
pub struct ServeStatic {
    pub base_path: String,
}

/// `i` is the last index of byte `c` in `s`.
pub open spec fn last_at(s: Seq<u8>, c: u8, i: int) -> bool {
    0 <= i < s.len() && s[i] == c && forall|j: int| i < j < s.len() ==> s[j] != c
}

/// What follows the last `c` in `s`; all of `s` when there is none.
pub open spec fn after_last(s: Seq<u8>, c: u8) -> Seq<u8> {
    if exists|i: int| last_at(s, c, i) {
        s.subrange((choose|i: int| last_at(s, c, i)) + 1, s.len() as int)
    } else {
        s
    }
}

/// The end of `s` is a `/`, or a `.` that is a whole path component.
pub open spec fn ends_in_separator_or_dot(s: Seq<u8>) -> bool {
    s.len() > 0 && (s.last() == 47 || (s.last() == 46 && (s.len() == 1 || s[s.len() - 2] == 47)))
}

/// `s` without trailing `/` and trailing `.` components, which do not
/// change the file a path names (`foo.txt/.` names `foo.txt`).
pub open spec fn trim_tail(s: Seq<u8>) -> Seq<u8>
    decreases s.len(),
{
    if ends_in_separator_or_dot(s) {
        trim_tail(s.drop_last())
    } else {
        s
    }
}

/// The extension of the file that a path names: what follows the last `.`
/// of the file name, unless that `.` starts the name. The file name is the
/// part after the last `/` once trailing `/` and `.` components are dropped.
/// Empty when there is no extension.
pub open spec fn extension_of(path: Seq<u8>) -> Seq<u8> {
    let name = after_last(trim_tail(path), 47);
    if exists|i: int| 0 < i && last_at(name, 46, i) {
        after_last(name, 46)
    } else {
        Seq::empty()
    }
}

proof fn lemma_last_unique(s: Seq<u8>, c: u8, i: int, j: int)
    requires
        last_at(s, c, i),
        last_at(s, c, j),
    ensures
        i == j,
{
}

/// Where the last `c` of `s` is.
fn find_last(s: &[u8], c: u8) -> (r: Option<usize>)
    ensures
        match r {
            Some(i) => last_at(s@, c, i as int),
            None => forall|i: int| 0 <= i < s@.len() ==> s@[i] != c,
        },
{
    let mut i: usize = s.len();
    while i > 0
        invariant
            i <= s@.len(),
            forall|j: int| i <= j < s@.len() ==> s@[j] != c,
        decreases i,
    {
        if s[i - 1] == c {
            return Some(i - 1);
        }
        i -= 1;
    }
    None
}

fn tail_from(s: &[u8], lo: usize) -> (r: Vec<u8>)
    requires
        lo <= s@.len(),
    ensures
        r@ == s@.subrange(lo as int, s@.len() as int),
{
    let mut r: Vec<u8> = Vec::new();
    let mut i: usize = lo;
    while i < s.len()
        invariant
            lo <= i <= s@.len(),
            r@ =~= s@.subrange(lo as int, i as int),
        decreases s.len() - i,
    {
        r.push(s[i]);
        i += 1;
    }
    r
}

fn after_last_exec(s: &[u8], c: u8) -> (r: Vec<u8>)
    ensures
        r@ == after_last(s@, c),
{
    let len = s.len();
    match find_last(s, c) {
        Some(i) => {
            proof {
                let k = choose|k: int| last_at(s@, c, k);
                lemma_last_unique(s@, c, i as int, k);
            }
            assert(i < len);
            tail_from(s, i + 1)
        },
        None => {
            assert(!exists|i: int| last_at(s@, c, i));
            tail_from(s, 0)
        },
    }
}

fn drop_trailing_components(s: &[u8]) -> (r: Vec<u8>)
    ensures
        r@ == trim_tail(s@),
{
    let mut hi: usize = s.len();
    assert(s@.subrange(0, s@.len() as int) =~= s@);
    loop
        invariant
            hi <= s@.len(),
            trim_tail(s@) == trim_tail(s@.subrange(0, hi as int)),
        ensures
            hi <= s@.len(),
            trim_tail(s@) == trim_tail(s@.subrange(0, hi as int)),
            !ends_in_separator_or_dot(s@.subrange(0, hi as int)),
        decreases hi,
    {
        let ghost cur = s@.subrange(0, hi as int);
        if hi == 0 {
            break;
        }
        let last = s[hi - 1];
        let strip = last == 47 || (last == 46 && (hi == 1 || s[hi - 2] == 47));
        assert(strip == ends_in_separator_or_dot(cur));
        if !strip {
            break;
        }
        assert(cur.drop_last() =~= s@.subrange(0, hi - 1));
        hi -= 1;
    }
    tail_prefix(s, hi)
}

fn tail_prefix(s: &[u8], hi: usize) -> (r: Vec<u8>)
    requires
        hi <= s@.len(),
    ensures
        r@ == s@.subrange(0, hi as int),
{
    let mut r: Vec<u8> = Vec::new();
    let mut i: usize = 0;
    while i < hi
        invariant
            i <= hi,
            hi <= s@.len(),
            r@ =~= s@.subrange(0, i as int),
        decreases hi - i,
    {
        r.push(s[i]);
        i += 1;
    }
    r
}

/// The extension of the file a path names.
pub fn file_extension(path: &[u8]) -> (r: Vec<u8>)
    ensures
        r@ == extension_of(path@),
{
    let trimmed = drop_trailing_components(path);
    let name = after_last_exec(trimmed.as_slice(), 47);
    match find_last(name.as_slice(), 46) {
        Some(i) => {
            if i > 0 {
                after_last_exec(name.as_slice(), 46)
            } else {
                proof {
                    if exists|k: int| 0 < k && last_at(name@, 46, k) {
                        let k = choose|k: int| 0 < k && last_at(name@, 46, k);
                        lemma_last_unique(name@, 46, 0, k);
                    }
                }
                Vec::new()
            }
        },
        None => Vec::new(),
    }
}

/// The `Content-Type` used for a file extension.
pub open spec fn content_type_for(ext: Seq<u8>) -> &'static str {
    if ext == seq![104u8, 116, 109, 108] || ext == seq![104u8, 116, 109] {
        "text/html; charset=utf-8"
    } else if ext == seq![99u8, 115, 115] {
        "text/css; charset=utf-8"
    } else if ext == seq![106u8, 115] {
        "application/javascript; charset=utf-8"
    } else if ext == seq![106u8, 115, 111, 110] {
        "application/json"
    } else if ext == seq![112u8, 110, 103] {
        "image/png"
    } else if ext == seq![106u8, 112, 103] || ext == seq![106u8, 112, 101, 103] {
        "image/jpeg"
    } else if ext == seq![103u8, 105, 102] {
        "image/gif"
    } else if ext == seq![115u8, 118, 103] {
        "image/svg+xml"
    } else if ext == seq![105u8, 99, 111] {
        "image/x-icon"
    } else if ext == seq![116u8, 120, 116] {
        "text/plain; charset=utf-8"
    } else {
        "application/octet-stream"
    }
}

fn same_ext(ext: &[u8], lit: Vec<u8>) -> (r: bool)
    ensures
        r == (ext@ == lit@),
{
    bytes_equal(ext, lit.as_slice())
}

impl ServeStatic {
    pub fn new(directory: String) -> (r: ServeStatic)
        ensures
            r.base_path == directory,
    {
        ServeStatic { base_path: directory }
    }

    /// The `Content-Type` for a file path, by its extension.
    pub fn guess_content_type(path: &str) -> (r: &'static str)
        ensures
            r == content_type_for(extension_of(path.spec_bytes())),
    {
        let ext = file_extension(path.as_bytes());
        let ext = ext.as_slice();
        if same_ext(ext, vec![104u8, 116, 109, 108]) || same_ext(ext, vec![104u8, 116, 109]) {
            "text/html; charset=utf-8"
        } else if same_ext(ext, vec![99u8, 115, 115]) {
            "text/css; charset=utf-8"
        } else if same_ext(ext, vec![106u8, 115]) {
            "application/javascript; charset=utf-8"
        } else if same_ext(ext, vec![106u8, 115, 111, 110]) {
            "application/json"
        } else if same_ext(ext, vec![112u8, 110, 103]) {
            "image/png"
        } else if same_ext(ext, vec![106u8, 112, 103]) || same_ext(ext, vec![106u8, 112, 101, 103]) {
            "image/jpeg"
        } else if same_ext(ext, vec![103u8, 105, 102]) {
            "image/gif"
        } else if same_ext(ext, vec![115u8, 118, 103]) {
            "image/svg+xml"
        } else if same_ext(ext, vec![105u8, 99, 111]) {
            "image/x-icon"
        } else if same_ext(ext, vec![116u8, 120, 116]) {
            "text/plain; charset=utf-8"
        } else {
            "application/octet-stream"
        }
    }
}

/// The path holds `..`, which static files refuse.
pub open spec fn climbs_up(path: Seq<u8>) -> bool {
    exists|i: int| 0 <= i && i + 1 < path.len() && #[trigger] path[i] == 46 && path[i + 1] == 46
}

/// Why a static file could not be read.
#[derive(Debug, Clone, Copy, PartialEq, Eq, Structural)]
pub enum FileProblem {
    PermissionDenied,
    NotFound,
    Other,
}

/// The status answered for a file that could not be read.
pub open spec fn file_problem_status(p: FileProblem) -> u16 {
    match p {
        FileProblem::PermissionDenied => 403,
        FileProblem::NotFound => 404,
        FileProblem::Other => 500,
    }
}

/// The plain-text body that reports a file problem.
pub open spec fn file_problem_text(p: FileProblem) -> Seq<u8> {
    match p {
        FileProblem::PermissionDenied => forbidden_text(),
        FileProblem::NotFound => not_found_text(),
        FileProblem::Other => server_error_text(),
    }
}

/// The path starts with the Windows extended-length prefix `\\?\`.
pub open spec fn has_unc_prefix(p: Seq<u8>) -> bool {
    p.len() >= 4 && p[0] == 92 && p[1] == 92 && p[2] == 63 && p[3] == 92
}

/// A canonical path (no `.` components, no repeated `/`) lies inside the
/// canonical directory `root`: `root`, without its trailing `/`, is a prefix
/// of `target` that ends at a component boundary.
pub open spec fn lies_within(target: Seq<u8>, root: Seq<u8>) -> bool {
    let r = trim_end(root);
    &&& r.len() <= target.len()
    &&& target.subrange(0, r.len() as int) == r
    &&& (target.len() == r.len() || target[r.len() as int] == 47)
}

impl ServeStatic {
    /// Whether a canonical file path lies inside the canonical base directory.
    pub fn lies_within(target: &str, root: &str) -> (r: bool)
        ensures
            r == lies_within(target.spec_bytes(), root.spec_bytes()),
    {
        let t = target.as_bytes();
        let full = root.as_bytes();
        let mut n: usize = full.len();
        assert(full@.subrange(0, full@.len() as int) =~= full@);
        while n > 0 && full[n - 1] == 47
            invariant
                n <= full@.len(),
                trim_end(full@) == trim_end(full@.subrange(0, n as int)),
            decreases n,
        {
            assert(full@.subrange(0, n as int).drop_last() =~= full@.subrange(0, n - 1));
            n -= 1;
        }
        let ghost r = full@.subrange(0, n as int);
        assert(trim_end(r) == r);
        assert(trim_end(full@) == r);
        assert(t@ == target.spec_bytes());
        assert(full@ == root.spec_bytes());
        if n > t.len() {
            return false;
        }
        let mut i: usize = 0;
        while i < n
            invariant
                i <= n,
                n <= t@.len(),
                n <= full@.len(),
                r == full@.subrange(0, n as int),
                trim_end(full@) == r,
                t@ == target.spec_bytes(),
                full@ == root.spec_bytes(),
                forall|j: int| 0 <= j < i ==> t@[j] == full@[j],
            decreases n - i,
        {
            if t[i] != full[i] {
                assert(t@.subrange(0, n as int)[i as int] != r[i as int]);
                assert(!lies_within(t@, full@));
                return false;
            }
            i += 1;
        }
        assert(t@.subrange(0, n as int) =~= r);
        let at_boundary = n == t.len() || t[n] == 47;
        assert(at_boundary == lies_within(t@, full@));
        at_boundary
    }

    /// Removes a leading `\\?\` from a canonical Windows path.
    pub fn strip_unc(path: &str) -> (r: &str)
        ensures
            has_unc_prefix(path.spec_bytes()) && is_char_boundary(path.spec_bytes(), 4)
                ==> r.spec_bytes() == path.spec_bytes().subrange(4, path.spec_bytes().len() as int),
            !(has_unc_prefix(path.spec_bytes()) && is_char_boundary(path.spec_bytes(), 4)) ==> r == path,
    {
        let b = path.as_bytes();
        if b.len() >= 4 && b[0] == 92 && b[1] == 92 && b[2] == 63 && b[3] == 92 {
            if path.is_char_boundary(4) {
                let (_, rest) = path.split_at(4);
                return rest;
            }
        }
        path
    }

    /// Whether a request path must be refused with 403 because it holds `..`.
    pub fn climbs_up(path: &[u8]) -> (r: bool)
        ensures
            r == climbs_up(path@),
    {
        if path.len() < 2 {
            return false;
        }
        let mut i: usize = 0;
        while i < path.len() - 1
            invariant
                path@.len() >= 2,
                i <= path@.len(),
                forall|j: int| 0 <= j < i && j + 1 < path@.len() ==> !(#[trigger] path@[j] == 46 && path@[j + 1] == 46),
            decreases path.len() - i,
        {
            if path[i] == 46 && path[i + 1] == 46 {
                return true;
            }
            assert(!(path@[i as int] == 46 && path@[i + 1] == 46));
            i += 1;
        }
        false
    }

    /// Answers a file that could not be read: 403, 404 or 500, with that
    /// status and its name as plain text.
    pub fn respond_file_problem(problem: FileProblem, response: &mut Response)
        requires
            old(response).wf(),
        ensures
            final(response).wf(),
            final(response).status == file_problem_status(problem),
            final(response).body is Some,
            final(response).body->0@ == file_problem_text(problem),
            date_added(typed_headers(old(response).headers@, file_problem_text(problem).len(), text_plain()), final(response).headers@),
    {
        let (status, text) = match problem {
            FileProblem::PermissionDenied => (403u16, forbidden_text_bytes()),
            FileProblem::NotFound => (404u16, not_found_text_bytes()),
            FileProblem::Other => (500u16, server_error_text_bytes()),
        };
        response.set_status(status);
        let kind = text_plain_bytes();
        response.send_typed(text, kind.as_slice());
    }

    /// Answers a request whose path holds `..`: 403 with `403 Forbidden`.
    pub fn respond_forbidden(response: &mut Response)
        requires
            old(response).wf(),
        ensures
            final(response).wf(),
            final(response).status == 403,
            final(response).body is Some && final(response).body->0@ == forbidden_text(),
            date_added(typed_headers(old(response).headers@, forbidden_text().len(), text_plain()), final(response).headers@),
    {
        Self::respond_file_problem(FileProblem::PermissionDenied, response);
    }
}

} // verus!
