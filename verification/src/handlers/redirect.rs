//! A handler that always redirects to one destination below its mount point.

use vstd::prelude::*;
use crate::text::chars_of;

verus! {

/// The text without the slashes it starts with.
pub open spec fn trim_leading_slashes(s: Seq<char>) -> Seq<char>
    decreases s.len(),
{
    if s.len() > 0 && s[0] == '/' {
        trim_leading_slashes(s.drop_first())
    } else {
        s
    }
}

/// The text without the slashes it ends with.
pub open spec fn trim_trailing_slashes(s: Seq<char>) -> Seq<char>
    decreases s.len(),
{
    if s.len() > 0 && s.last() == '/' {
        trim_trailing_slashes(s.drop_last())
    } else {
        s
    }
}

/// The URL that a handler mounted at `base` redirects to: the base
/// without trailing slashes, one slash, and the destination.
pub open spec fn redirect_target(base: Seq<char>, dest: Seq<char>) -> Seq<char> {
    trim_trailing_slashes(base) + seq!['/'] + dest
}

/// A handler that instead of serving content always redirects to some specified destination URL.
#[derive(Clone, Copy, Debug)]
pub struct RedirectHandler<'r> {
    dest: &'r str,
}

impl<'r> RedirectHandler<'r> {
    /// The destination, relative to the mount point.
    pub closed spec fn destination(&self) -> Seq<char> {
        self.dest@
    }

    /// Create a new `RedirectHandler` that redirects to the specified URL.
    ///
    /// Slashes at the start of `dest` are dropped.
    #[must_use]
    pub fn to(dest: &'r str) -> (out: Self)
        ensures
            out.destination() == trim_leading_slashes(dest@),
    {
        let chars = chars_of(dest);
        let mut i: usize = 0;
        assert(dest@.skip(0) =~= dest@);
        while i < chars.len() && chars[i] == '/'
            invariant
                i <= chars.len(),
                chars@ == dest@,
                trim_leading_slashes(dest@) == trim_leading_slashes(dest@.skip(i as int)),
            decreases chars.len() - i,
        {
            assert(dest@.skip(i as int).drop_first() =~= dest@.skip(i + 1));
            i += 1;
        }
        assert(dest@.skip(i as int) =~= dest@.subrange(i as int, chars.len() as int));
        Self { dest: dest.substring_char(i, chars.len()) }
    }

    /// The destination, relative to the mount point.
    pub fn dest(&self) -> (out: &'r str)
        ensures
            out@ == self.destination(),
    {
        self.dest
    }

    /// The URL to redirect to when the handler is mounted at `base`.
    pub fn target(&self, base: &str) -> (out: String)
        ensures
            out@ == redirect_target(base@, self.destination()),
    {
        let chars = chars_of(base);
        let mut end: usize = chars.len();
        assert(base@.take(chars.len() as int) =~= base@);
        while end > 0 && chars[end - 1] == '/'
            invariant
                end <= chars.len(),
                chars@ == base@,
                trim_trailing_slashes(base@) == trim_trailing_slashes(base@.take(end as int)),
            decreases end,
        {
            assert(base@.take(end as int).drop_last() =~= base@.take(end - 1));
            end -= 1;
        }
        assert(base@.take(end as int) =~= base@.subrange(0, end as int));
        let mut out = base.substring_char(0, end).to_owned();
        out.append("/");
        out.append(self.dest);
        proof {
            reveal_strlit("/");
            assert(out@ =~= redirect_target(base@, self.destination()));
        }
        out
    }
}

} // verus!
