//! The plain HTTP side of the listening socket: how a request for a file is
//! told apart, which file it names and what kind of content that file holds.

use vstd::prelude::*;
use vstd::string::StrSliceExecFns;

verus! {

/// The bytes begin with `GET` and a space.
pub open spec fn starts_with_get(first: Seq<u8>) -> bool {
    &&& first.len() >= 4
    &&& first[0] == 0x47
    &&& first[1] == 0x45
    &&& first[2] == 0x54
    &&& first[3] == 0x20
}

/// Whether a connection that begins with these bytes is a request for a file
/// rather than the upgrade to the message channel.
pub fn is_get_request(first: &[u8]) -> (get: bool)
    ensures
        get == starts_with_get(first@),
{
    first.len() >= 4 && first[0] == 0x47u8 && first[1] == 0x45u8 && first[2] == 0x54u8 && first[3]
        == 0x20u8
}

/// White space, as Unicode defines it.
pub open spec fn is_space(c: char) -> bool {
    let n = c as u32;
    ||| 0x09 <= n <= 0x0d
    ||| n == 0x20
    ||| n == 0x85
    ||| n == 0xa0
    ||| n == 0x1680
    ||| 0x2000 <= n <= 0x200a
    ||| n == 0x2028
    ||| n == 0x2029
    ||| n == 0x202f
    ||| n == 0x205f
    ||| n == 0x3000
}

/// Whether `c` is white space.
pub fn is_whitespace(c: char) -> (space: bool)
    ensures
        space == is_space(c),
{
    let n: u32 = c as u32;
    (0x09 <= n && n <= 0x0d) || n == 0x20 || n == 0x85 || n == 0xa0 || n == 0x1680 || (0x2000 <= n
        && n <= 0x200a) || n == 0x2028 || n == 0x2029 || n == 0x202f || n == 0x205f || n == 0x3000
}

/// Where the line that holds position `i` of `text` ends: at the next line
/// feed, or at the end of the text.
pub open spec fn line_end(text: Seq<char>, i: int) -> int
    decreases text.len() - i,
{
    if i < 0 || i >= text.len() || text[i] == '\n' {
        i
    } else {
        line_end(text, i + 1)
    }
}

/// The first line of `text`, without its line feed.
pub open spec fn first_line(text: Seq<char>) -> Seq<char> {
    text.subrange(0, line_end(text, 0))
}

/// Where the run of white space (`spaces`) or of other characters (not
/// `spaces`) that begins at `i` ends.
pub open spec fn run_end(text: Seq<char>, i: int, spaces: bool) -> int
    decreases text.len() - i,
{
    if i < 0 || i >= text.len() || is_space(text[i]) != spaces {
        i
    } else {
        run_end(text, i + 1, spaces)
    }
}

/// Where the second word of `line` begins.
pub open spec fn second_word_start(line: Seq<char>) -> int {
    run_end(line, run_end(line, run_end(line, 0, true), false), true)
}

/// The path that a request names: the second word of its first line, words
/// being what white space separates. `None` where that line has no second
/// word.
pub open spec fn request_path_of(request: Seq<char>) -> Option<Seq<char>> {
    let line = first_line(request);
    let start = second_word_start(line);
    let end = run_end(line, start, false);
    if start < end {
        Some(line.subrange(start, end))
    } else {
        None
    }
}

fn skip_run(text: &str, from: usize, limit: usize, spaces: bool) -> (to: usize)
    requires
        from <= limit <= text@.len(),
    ensures
        from <= to <= limit,
        to == run_end(text@.subrange(0, limit as int), from as int, spaces),
{
    let ghost line = text@.subrange(0, limit as int);
    let mut i = from;
    while i < limit && is_whitespace(text.get_char(i)) == spaces
        invariant
            from <= i <= limit <= text@.len(),
            line == text@.subrange(0, limit as int),
            run_end(line, from as int, spaces) == run_end(line, i as int, spaces),
        decreases limit - i,
    {
        assert(line[i as int] == text@[i as int]);
        i += 1;
    }
    proof {
        if i < limit {
            assert(line[i as int] == text@[i as int]);
        }
    }
    i
}

/// The path that the request `request` names.
pub fn request_path<'a>(request: &'a str) -> (path: Option<&'a str>)
    ensures
        match path {
            Some(p) => request_path_of(request@) == Some(p@),
            None => request_path_of(request@) is None,
        },
{
    let n = request.unicode_len();
    let mut limit: usize = 0;
    while limit < n && request.get_char(limit) != '\n'
        invariant
            limit <= n,
            n == request@.len(),
            line_end(request@, 0) == line_end(request@, limit as int),
        decreases n - limit,
    {
        limit += 1;
    }
    let first = skip_run(request, 0, limit, true);
    let second = skip_run(request, first, limit, false);
    let start = skip_run(request, second, limit, true);
    let end = skip_run(request, start, limit, false);
    if start < end {
        proof {
            assert(request@.subrange(start as int, end as int) =~= first_line(request@).subrange(
                start as int,
                end as int,
            ));
        }
        Some(request.substring_char(start, end))
    } else {
        None
    }
}

/// The file that the request path names: the start page for `/`, else the
/// path without its first character.
pub open spec fn file_path_of(path: Seq<char>) -> Seq<char> {
    if path == seq!['/'] {
        "static/index.html"@
    } else if path.len() == 0 {
        path
    } else {
        path.subrange(1, path.len() as int)
    }
}

/// The file that the request path `path` names.
pub fn file_path<'a>(path: &'a str) -> (file: &'a str)
    ensures
        file@ == file_path_of(path@),
{
    let n = path.unicode_len();
    if n == 0 {
        path
    } else if n == 1 && path.get_char(0) == '/' {
        assert(path@ =~= seq!['/']);
        "static/index.html"
    } else {
        assert(path@ != seq!['/']) by {
            if path@ == seq!['/'] {
                assert(seq!['/'].len() == 1);
                assert(seq!['/'][0] == '/');
            }
        }
        path.substring_char(1, n)
    }
}

/// The extension of `path` begins at `i`: behind the last dot, or at the
/// start where the path has no dot.
pub open spec fn is_extension_start(path: Seq<char>, i: int) -> bool {
    &&& 0 <= i <= path.len()
    &&& i == 0 || path[i - 1] == '.'
    &&& forall|j: int| i <= j < path.len() ==> path[j] != '.'
}

/// What stands behind the last dot of `path`: all of it where it has no dot.
pub open spec fn extension(path: Seq<char>) -> Seq<char> {
    path.subrange(choose|i: int| is_extension_start(path, i), path.len() as int)
}

/// The content type that goes with the extension of `path`.
pub open spec fn content_type_of(path: Seq<char>) -> Seq<char> {
    let ext = extension(path);
    if ext == "html"@ {
        "text/html"@
    } else if ext == "js"@ {
        "application/javascript"@
    } else if ext == "css"@ {
        "text/css"@
    } else {
        "application/octet-stream"@
    }
}

/// A path's extension begins at one place only.
pub proof fn lemma_extension_start_unique(path: Seq<char>, i: int, j: int)
    requires
        is_extension_start(path, i),
        is_extension_start(path, j),
    ensures
        i == j,
{
    if i < j {
        assert(path[j - 1] == '.');
    } else if j < i {
        assert(path[i - 1] == '.');
    }
}

fn same_text(a: &str, b: &str) -> (same: bool)
    ensures
        same == (a@ == b@),
{
    a.to_owned() == b.to_owned()
}

/// The content type for the file `path`, guessed from its extension.
pub fn content_type(path: &str) -> (kind: &'static str)
    ensures
        kind@ == content_type_of(path@),
{
    let n = path.unicode_len();
    let mut start = n;
    while start > 0 && path.get_char(start - 1) != '.'
        invariant
            start <= n,
            n == path@.len(),
            forall|j: int| start <= j < n ==> path@[j] != '.',
        decreases start,
    {
        start -= 1;
    }
    proof {
        assert(is_extension_start(path@, start as int));
        let chosen = choose|i: int| is_extension_start(path@, i);
        lemma_extension_start_unique(path@, start as int, chosen);
    }
    let ext = path.substring_char(start, n);
    if same_text(ext, "html") {
        "text/html"
    } else if same_text(ext, "js") {
        "application/javascript"
    } else if same_text(ext, "css") {
        "text/css"
    } else {
        "application/octet-stream"
    }
}

} // verus!
