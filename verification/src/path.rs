//! Path templates: literal text with `{name}` placeholders.

use vstd::prelude::*;
use crate::error::Error;
use crate::text::{chars_of, texts};

verus! {

/// The characters that end a placeholder name.
pub open spec fn delimiter(c: char) -> bool {
    c == '{' || c == '}' || c == '/'
}

/// The first position at or after `i` that holds a delimiter, or the
/// length of `p` if none does.
pub open spec fn name_end(p: Seq<char>, i: int) -> int
    decreases p.len() - i,
{
    if i < 0 || i >= p.len() {
        p.len() as int
    } else if delimiter(p[i]) {
        i
    } else {
        name_end(p, i + 1)
    }
}

/// A placeholder starts at position `i`: a `{`, then a name of one or more
/// characters that are no delimiters, then a `}`.
pub open spec fn placeholder_at(p: Seq<char>, i: int) -> bool {
    &&& 0 <= i < p.len()
    &&& p[i] == '{'
    &&& i + 1 < name_end(p, i + 1) < p.len()
    &&& p[name_end(p, i + 1)] == '}'
}

/// The names of the placeholders of `p` from position `i` on, in order, or
/// nothing if the template is malformed there: a `{` that starts no
/// placeholder, or a `}` outside one.
pub open spec fn placeholders_from(p: Seq<char>, i: int) -> Option<Seq<Seq<char>>>
    decreases p.len() - i,
{
    if i < 0 || i >= p.len() {
        Some(Seq::empty())
    } else if p[i] == '}' {
        None
    } else if p[i] == '{' {
        if placeholder_at(p, i) {
            let j = name_end(p, i + 1);
            match placeholders_from(p, j + 1) {
                Some(rest) => Some(seq![p.subrange(i + 1, j)] + rest),
                None => None,
            }
        } else {
            None
        }
    } else {
        placeholders_from(p, i + 1)
    }
}

/// The names of the placeholders of a path template, in order, or nothing
/// if the template is malformed.
pub open spec fn placeholders(p: Seq<char>) -> Option<Seq<Seq<char>>> {
    placeholders_from(p, 0)
}

/// The path from position `i` on with every placeholder replaced by `{}`.
pub open spec fn normalized_from(p: Seq<char>, i: int) -> Seq<char>
    decreases p.len() - i,
{
    if i < 0 || i >= p.len() {
        Seq::empty()
    } else if placeholder_at(p, i) {
        seq!['{', '}'] + normalized_from(p, name_end(p, i + 1) + 1)
    } else {
        seq![p[i]] + normalized_from(p, i + 1)
    }
}

/// The normalized form of a path: every placeholder replaced by `{}`, so
/// that two templates that differ only in placeholder names become equal.
pub open spec fn normalized(p: Seq<char>) -> Seq<char> {
    normalized_from(p, 0)
}

fn is_delimiter(c: char) -> (out: bool)
    ensures
        out == delimiter(c),
{
    c == '{' || c == '}' || c == '/'
}

/// The end of the name that starts at `from`.
fn scan_name(chars: &Vec<char>, from: usize) -> (out: usize)
    requires
        from <= chars.len(),
    ensures
        out == name_end(chars@, from as int),
        from <= out <= chars.len(),
{
    let mut j: usize = from;
    while j < chars.len() && !is_delimiter(chars[j])
        invariant
            from <= j <= chars.len(),
            name_end(chars@, from as int) == name_end(chars@, j as int),
        decreases chars.len() - j,
    {
        j += 1;
    }
    j
}

/// The names of the placeholders of a path template, in order.
///
/// Fails with [`Error::MalformedPathTemplate`] exactly when the template
/// is malformed.
pub fn template_placeholders(path: &str) -> (out: Result<Vec<String>, Error>)
    ensures
        match placeholders(path@) {
            Some(names) => out matches Ok(v) && texts(v@) == names,
            None => out == Err::<Vec<String>, Error>(Error::MalformedPathTemplate),
        },
{
    let chars = chars_of(path);
    let ghost p = path@;
    let mut names: Vec<String> = Vec::new();
    let mut i: usize = 0;
    assert(texts(names@) =~= Seq::<Seq<char>>::empty());
    while i < chars.len()
        invariant
            chars@ == p,
            p == path@,
            i <= chars.len(),
            placeholders(p) == match placeholders_from(p, i as int) {
                Some(rest) => Some(texts(names@) + rest),
                None => None,
            },
        decreases chars.len() - i,
    {
        let c = chars[i];
        if c == '}' {
            return Err(Error::MalformedPathTemplate);
        }
        if c == '{' {
            let j = scan_name(&chars, i + 1);
            if j >= chars.len() || j == i + 1 || chars[j] != '}' {
                return Err(Error::MalformedPathTemplate);
            }
            assert(placeholder_at(p, i as int));
            let ghost before = texts(names@);
            let name = path.substring_char(i + 1, j).to_owned();
            names.push(name);
            proof {
                assert(texts(names@) =~= before.push(p.subrange(i + 1, j as int)));
                match placeholders_from(p, j + 1) {
                    Some(rest) => {
                        assert(before + (seq![p.subrange(i + 1, j as int)] + rest) =~= texts(names@)
                            + rest);
                    },
                    None => {},
                }
            }
            i = j + 1;
        } else {
            i += 1;
        }
    }
    proof {
        assert(texts(names@) + Seq::<Seq<char>>::empty() =~= texts(names@));
    }
    Ok(names)
}

/// The normalized form of a path: every placeholder replaced by `{}`.
pub fn normalize_path(path: &str) -> (out: String)
    ensures
        out@ == normalized(path@),
{
    let chars = chars_of(path);
    let ghost p = path@;
    let mut out = String::new();
    let mut i: usize = 0;
    while i < chars.len()
        invariant
            chars@ == p,
            p == path@,
            i <= chars.len(),
            normalized(p) == out@ + normalized_from(p, i as int),
        decreases chars.len() - i,
    {
        let ghost before = out@;
        if chars[i] == '{' {
            let j = scan_name(&chars, i + 1);
            if j < chars.len() && j > i + 1 && chars[j] == '}' {
                assert(placeholder_at(p, i as int));
                out.append("{}");
                proof {
                    reveal_strlit("{}");
                    assert("{}"@ =~= seq!['{', '}']);
                    assert(before + (seq!['{', '}'] + normalized_from(p, j + 1)) =~= out@
                        + normalized_from(p, j + 1));
                }
                i = j + 1;
                continue ;
            }
        }
        assert(!placeholder_at(p, i as int));
        out.append(path.substring_char(i, i + 1));
        proof {
            assert(p.subrange(i as int, i + 1) =~= seq![p[i as int]]);
            assert(before + (seq![p[i as int]] + normalized_from(p, i + 1)) =~= out@
                + normalized_from(p, i + 1));
        }
        i += 1;
    }
    assert(out@ + Seq::<char>::empty() =~= out@);
    out
}

} // verus!
