//! Content types guessed from a file name's extension.
use vstd::prelude::*;
use crate::text::{same_text, string_of, to_chars};

verus! {

/// What follows the last `c` in `s`; all of `s` when it has no `c`.
pub open spec fn after_last(s: Seq<char>, c: char) -> Seq<char>
    decreases s.len(),
{
    if s.len() == 0 {
        s
    } else if s.last() == c {
        Seq::empty()
    } else {
        after_last(s.drop_last(), c).push(s.last())
    }
}

/// The extension of a path's file name: what follows its last `.`, empty without one.
pub open spec fn extension(path: Seq<char>) -> Seq<char> {
    let name = after_last(path, '/');
    if name.contains('.') {
        after_last(name, '.')
    } else {
        Seq::empty()
    }
}

/// The content type for a file extension.
pub open spec fn mime_for(ext: Seq<char>) -> Seq<char> {
    if ext == "txt"@ {
        "text/plain"@
    } else if ext == "html"@ {
        "text/html"@
    } else {
        "application/octet-stream"@
    }
}

/// The start of what follows the last `c` in `v[0..to]`, and whether there is a `c`.
fn start_after_last(v: &Vec<char>, to: usize, c: char) -> (r: (usize, bool))
    requires
        to <= v@.len(),
    ensures
        r.0 <= to,
        v@.subrange(r.0 as int, to as int) == after_last(v@.take(to as int), c),
        r.1 == v@.take(to as int).contains(c),
{
    let mut i = to;
    while i > 0 && v[i - 1] != c
        invariant
            i <= to <= v@.len(),
            forall|k: int| i <= k < to ==> v@[k] != c,
            after_last(v@.take(to as int), c) == after_last(v@.take(i as int), c) + v@.subrange(i as int, to as int),
        decreases i,
    {
        let ghost t = v@.take(i as int);
        assert(t.drop_last() =~= v@.take(i - 1));
        assert(v@.subrange(i - 1, to as int) =~= seq![t.last()] + v@.subrange(i as int, to as int));
        assert(after_last(t, c) =~= after_last(v@.take(i - 1), c) + seq![t.last()]);
        i = i - 1;
    }
    let ghost t = v@.take(i as int);
    if i > 0 {
        assert(t.last() == c);
        assert(v@.take(to as int)[i - 1] == c);
        assert(v@.subrange(i as int, to as int) =~= after_last(v@.take(to as int), c));
        (i, true)
    } else {
        assert(t =~= Seq::<char>::empty());
        assert(v@.subrange(0, to as int) =~= v@.take(to as int));
        assert(!v@.take(to as int).contains(c)) by {
            if v@.take(to as int).contains(c) {
                let k = choose|k: int| 0 <= k < to && v@.take(to as int)[k] == c;
                assert(v@[k] == c);
            }
        }
        (0, false)
    }
}

/// Looks up content types by file name.
pub struct MimeType {}

impl MimeType {
    /// `text/plain` for `.txt`, `text/html` for `.html`, else `application/octet-stream`.
    pub fn from_file_path(file_path: String) -> (r: String)
        ensures
            r@ == mime_for(extension(file_path@)),
    {
        let v = to_chars(file_path.as_str());
        assert(v@.take(v@.len() as int) =~= v@);
        let (name_start, _) = start_after_last(&v, v.len(), '/');
        let name: Vec<char> = crate::text::to_chars(string_of(&v, name_start, v.len()).as_str());
        assert(name@.take(name@.len() as int) =~= name@);
        let (ext_start, has_dot) = start_after_last(&name, name.len(), '.');
        let ext = if has_dot { string_of(&name, ext_start, name.len()) } else { String::new() };
        assert(name@.subrange(ext_start as int, name@.len() as int) == after_last(name@, '.'));
        if same_text(ext.as_str(), "txt") {
            String::from_str("text/plain")
        } else if same_text(ext.as_str(), "html") {
            String::from_str("text/html")
        } else {
            String::from_str("application/octet-stream")
        }
    }
}

} // verus!
