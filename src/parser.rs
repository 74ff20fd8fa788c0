//! Recognising the format of policy documents and separating the documents
//! of a multi-document text.
use vstd::prelude::*;
use vstd::string::StringExecFns;
use crate::text::{chars_of, has_suffix, split_on, split_text, text_ends_with};

verus! {

/// Formats a policy document can be written in.
#[derive(Debug, Clone, Copy, PartialEq, Eq, Structural)]
pub enum PolicyFormat {
    Yaml,
    Json,
}

/// Unicode `White_Space`, the characters that trimming removes.
pub open spec fn is_white_space(c: char) -> bool {
    let v = c as u32;
    (0x09 <= v && v <= 0x0d) || v == 0x20 || v == 0x85 || v == 0xa0 || v == 0x1680 || (0x2000
        <= v && v <= 0x200a) || v == 0x2028 || v == 0x2029 || v == 0x202f || v == 0x205f || v
        == 0x3000
}

/// The first character of `s` that is not white space, if any.
pub open spec fn first_visible(s: Seq<char>) -> Option<char>
    decreases s.len(),
{
    if s.len() == 0 {
        None
    } else if is_white_space(s[0]) {
        first_visible(s.subrange(1, s.len() as int))
    } else {
        Some(s[0])
    }
}

/// The format a file name's extension names.
pub open spec fn format_of_extension(path: Seq<char>) -> Option<PolicyFormat> {
    if has_suffix(path, ".yaml"@) || has_suffix(path, ".yml"@) {
        Some(PolicyFormat::Yaml)
    } else if has_suffix(path, ".json"@) {
        Some(PolicyFormat::Json)
    } else {
        None
    }
}

/// Whether `c` is Unicode white space.
pub fn white_space(c: char) -> (r: bool)
    ensures
        r == is_white_space(c),
{
    let v = c as u32;
    (0x09 <= v && v <= 0x0d) || v == 0x20 || v == 0x85 || v == 0xa0 || v == 0x1680 || (0x2000
        <= v && v <= 0x200a) || v == 0x2028 || v == 0x2029 || v == 0x202f || v == 0x205f || v
        == 0x3000
}

impl PolicyFormat {
    /// The format named by a file's extension: `.yaml` or `.yml`, or `.json`.
    pub fn from_extension(path: &str) -> (r: Option<Self>)
        ensures
            r == format_of_extension(path@),
    {
        if text_ends_with(path, ".yaml") || text_ends_with(path, ".yml") {
            Some(PolicyFormat::Yaml)
        } else if text_ends_with(path, ".json") {
            Some(PolicyFormat::Json)
        } else {
            None
        }
    }

    /// The format of a document's text: JSON when its first character
    /// other than white space is `{`, YAML otherwise.
    pub fn detect(content: &str) -> (r: Self)
        ensures
            r == (if first_visible(content@) == Some('{') {
                PolicyFormat::Json
            } else {
                PolicyFormat::Yaml
            }),
    {
        let cs = chars_of(content);
        let n = cs.len();
        let mut i: usize = 0;
        assert(cs@.subrange(0, n as int) =~= cs@);
        while i < n && white_space(cs[i])
            invariant
                cs@ == content@,
                n == cs@.len(),
                i <= n,
                first_visible(cs@) == first_visible(cs@.subrange(i as int, n as int)),
            decreases n - i,
        {
            let ghost rest = cs@.subrange(i as int, n as int);
            assert(rest.subrange(1, rest.len() as int) =~= cs@.subrange(i + 1, n as int));
            i += 1;
        }
        if i < n && cs[i] == '{' {
            PolicyFormat::Json
        } else {
            PolicyFormat::Yaml
        }
    }
}

/// A line that separates documents: exactly `---`, with an optional
/// carriage return at its end.
pub open spec fn is_separator(line: Seq<char>) -> bool {
    line == "---"@ || line == "---\r"@
}

/// The bodies between separator lines; each line of a body is followed by
/// a line feed.
pub open spec fn document_bodies(lines: Seq<Seq<char>>) -> Seq<Seq<char>>
    decreases lines.len(),
{
    if lines.len() == 0 {
        seq![Seq::empty()]
    } else {
        let prev = document_bodies(lines.subrange(0, lines.len() - 1));
        let line = lines.last();
        if is_separator(line) {
            prev.push(Seq::empty())
        } else {
            prev.update(prev.len() - 1, prev.last() + line + seq!['\n'])
        }
    }
}

/// `s` without the white space at its start.
pub open spec fn trim_start(s: Seq<char>) -> Seq<char>
    decreases s.len(),
{
    if s.len() > 0 && is_white_space(s[0]) {
        trim_start(s.subrange(1, s.len() as int))
    } else {
        s
    }
}

/// `s` without the white space at its end.
pub open spec fn trim_end(s: Seq<char>) -> Seq<char>
    decreases s.len(),
{
    if s.len() > 0 && is_white_space(s.last()) {
        trim_end(s.subrange(0, s.len() - 1))
    } else {
        s
    }
}

/// `s` without white space at either end.
pub open spec fn trim(s: Seq<char>) -> Seq<char> {
    trim_end(trim_start(s))
}

/// The trimmed bodies that are not empty, in order.
pub open spec fn nonempty_trimmed(bodies: Seq<Seq<char>>) -> Seq<Seq<char>>
    decreases bodies.len(),
{
    if bodies.len() == 0 {
        Seq::empty()
    } else {
        let prev = nonempty_trimmed(bodies.subrange(0, bodies.len() - 1));
        let t = trim(bodies.last());
        if t.len() == 0 {
            prev
        } else {
            prev.push(t)
        }
    }
}

/// The documents of a multi-document text: split at separator lines,
/// trimmed, the empty ones left out.
pub open spec fn documents_of(content: Seq<char>) -> Seq<Seq<char>> {
    nonempty_trimmed(document_bodies(split_on(content, '\n')))
}

/// `s` without white space at either end.
fn trimmed(s: &Vec<char>) -> (r: Vec<char>)
    ensures
        r@ == trim(s@),
{
    let n = s.len();
    let mut start: usize = 0;
    assert(s@.subrange(0, n as int) =~= s@);
    while start < n && white_space(s[start])
        invariant
            n == s@.len(),
            start <= n,
            trim_start(s@) == trim_start(s@.subrange(start as int, n as int)),
        decreases n - start,
    {
        let ghost rest = s@.subrange(start as int, n as int);
        assert(rest.subrange(1, rest.len() as int) =~= s@.subrange(start + 1, n as int));
        start += 1;
    }
    let ghost front = s@.subrange(start as int, n as int);
    assert(trim_start(s@) == front);
    let mut end: usize = n;
    assert(front.subrange(0, (end - start) as int) =~= front);
    while end > start && white_space(s[end - 1])
        invariant
            n == s@.len(),
            start <= end <= n,
            front == s@.subrange(start as int, n as int),
            trim_end(front) == trim_end(s@.subrange(start as int, end as int)),
        decreases end - start,
    {
        let ghost rest = s@.subrange(start as int, end as int);
        assert(rest.subrange(0, rest.len() - 1) =~= s@.subrange(start as int, end - 1));
        end -= 1;
    }
    let mut out: Vec<char> = Vec::new();
    let mut i: usize = start;
    while i < end
        invariant
            n == s@.len(),
            start <= i <= end <= n,
            out@ == s@.subrange(start as int, i as int),
        decreases end - i,
    {
        out.push(s[i]);
        i += 1;
        assert(out@ =~= s@.subrange(start as int, i as int));
    }
    out
}

/// The documents of a multi-document text, in order: the text is split at
/// lines that are exactly `---`, each part is trimmed, and empty parts are
/// left out.
pub fn split_documents(content: &str) -> (r: Vec<String>)
    ensures
        r@.map_values(|d: String| d@) == documents_of(content@),
{
    let lines = split_text(content, '\n');
    let ghost ls = split_on(content@, '\n');
    assert(forall|k: int| 0 <= k < lines@.len() ==> #[trigger] lines@[k]@ == ls[k]);
    let mut bodies: Vec<Vec<char>> = Vec::new();
    bodies.push(Vec::new());
    let mut i: usize = 0;
    while i < lines.len()
        invariant
            lines@.len() == ls.len(),
            forall|k: int| 0 <= k < lines@.len() ==> #[trigger] lines@[k]@ == ls[k],
            i <= lines@.len(),
            bodies@.len() >= 1,
            bodies@.map_values(|b: Vec<char>| b@) == document_bodies(ls.subrange(0, i as int)),
        decreases lines@.len() - i,
    {
        let ghost pre = ls.subrange(0, i as int + 1);
        assert(pre.subrange(0, pre.len() - 1) =~= ls.subrange(0, i as int));
        assert(pre.last() == lines@[i as int]@);
        let ghost before = bodies@.map_values(|b: Vec<char>| b@);
        let line = &lines[i];
        let separator = {
            let a = String::from_str("---");
            let b = String::from_str("---\r");
            *line == a || *line == b
        };
        if separator {
            bodies.push(Vec::new());
            assert(bodies@.map_values(|b: Vec<char>| b@) =~= before.push(Seq::empty()));
        } else {
            let last = bodies.len() - 1;
            let ghost old_bodies = bodies@;
            let mut body = bodies.remove(last);
            assert(body@ == before.last());
            assert(bodies@ =~= old_bodies.subrange(0, last as int));
            let cs = chars_of(line.as_str());
            let mut k: usize = 0;
            let ghost start = body@;
            while k < cs.len()
                invariant
                    k <= cs@.len(),
                    body@ == start + cs@.subrange(0, k as int),
                decreases cs@.len() - k,
            {
                body.push(cs[k]);
                k += 1;
                assert(body@ =~= start + cs@.subrange(0, k as int));
            }
            assert(cs@.subrange(0, cs@.len() as int) =~= cs@);
            body.push('\n');
            assert(body@ =~= before.last() + lines@[i as int]@ + seq!['\n']);
            bodies.push(body);
            assert(bodies@ =~= old_bodies.subrange(0, last as int).push(body));
            assert forall|q: int| 0 <= q < last implies #[trigger] bodies@[q]@ == before[q] by {
                assert(bodies@[q] == old_bodies[q]);
            }
            assert(bodies@.map_values(|b: Vec<char>| b@) =~= before.update(
                before.len() - 1,
                before.last() + lines@[i as int]@ + seq!['\n'],
            ));
        }
        i += 1;
    }
    assert(ls.subrange(0, lines@.len() as int) =~= ls);
    let ghost bs = document_bodies(ls);
    let mut docs: Vec<String> = Vec::new();
    let mut j: usize = 0;
    assert(docs@.map_values(|d: String| d@) =~= Seq::<Seq<char>>::empty());
    while j < bodies.len()
        invariant
            bodies@.map_values(|b: Vec<char>| b@) == bs,
            j <= bodies@.len(),
            docs@.map_values(|d: String| d@) == nonempty_trimmed(bs.subrange(0, j as int)),
        decreases bodies@.len() - j,
    {
        let ghost pre = bs.subrange(0, j as int + 1);
        assert(pre.subrange(0, pre.len() - 1) =~= bs.subrange(0, j as int));
        assert(pre.last() == bodies@[j as int]@);
        let ghost before = docs@.map_values(|d: String| d@);
        let t = trimmed(&bodies[j]);
        if t.len() > 0 {
            let mut text = String::new();
            let mut k: usize = 0;
            while k < t.len()
                invariant
                    k <= t@.len(),
                    text@ == t@.subrange(0, k as int),
                decreases t@.len() - k,
            {
                text.push(t[k]);
                k += 1;
                assert(text@ =~= t@.subrange(0, k as int));
            }
            assert(t@.subrange(0, t@.len() as int) =~= t@);
            docs.push(text);
            assert(docs@.map_values(|d: String| d@) =~= before.push(t@));
        }
        j += 1;
    }
    assert(bs.subrange(0, bodies@.len() as int) =~= bs);
    docs
}

} // verus!
