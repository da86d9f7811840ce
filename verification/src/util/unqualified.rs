//! Reducing full type paths to the bare type names, for messages.

use vstd::prelude::*;

verus! {

/// Whether `ch` ends a type path.
pub open spec fn spec_is_split_char(ch: char) -> bool {
    ch == ' ' || ch == '<' || ch == '>' || ch == '(' || ch == ')' || ch == '[' || ch == ']' || ch
        == ',' || ch == ';'
}

/// Whether `ch` closes a group.
pub open spec fn spec_is_close_char(ch: char) -> bool {
    ch == '>' || ch == ')' || ch == ']'
}

/// Whether a `::` starts at `i`.
pub open spec fn is_separator_at(s: Seq<char>, i: int) -> bool {
    0 <= i && i + 1 < s.len() && s[i] == ':' && s[i + 1] == ':'
}

/// What is written for `s` from position `i` on, where the current path
/// segment began at `word_start` and `was_close` says whether the character
/// before `i` closed a group.
///
/// A `::` drops the segment before it, and is itself written only behind a
/// closed group. A character that ends a path writes the pending segment and
/// itself. The segment that is pending at the end is written too.
pub open spec fn unqualified_from(s: Seq<char>, i: int, word_start: int, was_close: bool) -> Seq<
    char,
>
    decreases s.len() - i,
{
    if i < 0 || i >= s.len() {
        s.subrange(word_start, s.len() as int)
    } else if is_separator_at(s, i) {
        (if was_close {
            seq![':', ':']
        } else {
            Seq::<char>::empty()
        }) + unqualified_from(s, i + 2, i + 2, false)
    } else if spec_is_close_char(s[i]) {
        s.subrange(word_start, i).push(s[i]) + unqualified_from(s, i + 1, i + 1, true)
    } else if spec_is_split_char(s[i]) {
        s.subrange(word_start, i).push(s[i]) + unqualified_from(s, i + 1, i + 1, false)
    } else {
        unqualified_from(s, i + 1, word_start, false)
    }
}

/// The type name `s` with every path reduced to its last segment.
pub open spec fn unqualified(s: Seq<char>) -> Seq<char> {
    unqualified_from(s, 0, 0, false)
}

/// Whether `ch` ends a type path.
pub fn is_split_char(ch: char) -> (b: bool)
    ensures
        b == spec_is_split_char(ch),
{
    ch == ' ' || ch == '<' || ch == '>' || ch == '(' || ch == ')' || ch == '[' || ch == ']' || ch
        == ',' || ch == ';'
}

/// Whether `ch` closes a group.
pub fn is_close_char(ch: char) -> (b: bool)
    ensures
        b == spec_is_close_char(ch),
{
    ch == '>' || ch == ')' || ch == ']'
}

/// A fully qualified type name that is written without its module paths.
#[derive(Clone, Copy)]
pub struct UnqualifiedTypeName {
    fully_qualified_type_name: &'static str,
}

impl UnqualifiedTypeName {
    /// The fully qualified name.
    pub closed spec fn view(&self) -> Seq<char> {
        self.fully_qualified_type_name@
    }

    /// Wraps a fully qualified type name.
    pub fn from_unchecked(fully_qualified_type_name: &'static str) -> (name: Self)
        ensures
            name@ == fully_qualified_type_name@,
    {
        UnqualifiedTypeName { fully_qualified_type_name }
    }

    /// The name without its module paths.
    pub fn to_string(&self) -> (out: String)
        ensures
            out@ == unqualified(self@),
    {
        unqualify(self.fully_qualified_type_name)
    }
}

/// Writes `name` without its module paths.
pub fn unqualify(name: &str) -> (out: String)
    ensures
        out@ == unqualified(name@),
{
    let len = name.unicode_len();
    let mut out = String::new();
    let mut i: usize = 0;
    let mut word_start: usize = 0;
    let mut was_close = false;
    while i < len
        invariant
            len == name@.len(),
            word_start <= i <= len,
            out@ + unqualified_from(name@, i as int, word_start as int, was_close) == unqualified(
                name@,
            ),
        decreases len - i,
    {
        let ch = name.get_char(i);
        let ghost rest = unqualified_from(name@, i as int, word_start as int, was_close);
        let ghost written = out@;
        if ch == ':' && i + 1 < len && name.get_char(i + 1) == ':' {
            if was_close {
                proof {
                    reveal_strlit("::");
                    assert("::"@ =~= seq![':', ':']);
                }
                out.append("::");
            }
            proof {
                let tail = unqualified_from(name@, i + 2, i + 2, false);
                assert(out@ + tail =~= written + rest);
            }
            i = i + 2;
            word_start = i;
            was_close = false;
        } else if is_close_char(ch) || is_split_char(ch) {
            out.append(name.substring_char(word_start, i));
            out.append(name.substring_char(i, i + 1));
            proof {
                let tail = unqualified_from(name@, i + 1, i + 1, spec_is_close_char(ch));
                let word = name@.subrange(word_start as int, i as int);
                assert(name@.subrange(i as int, i + 1) =~= seq![ch]);
                assert(out@ =~= written + word.push(ch));
                assert(rest == word.push(ch) + tail);
                assert(out@ + tail =~= written + rest);
            }
            was_close = is_close_char(ch);
            i = i + 1;
            word_start = i;
        } else {
            was_close = false;
            i = i + 1;
        }
    }
    out.append(name.substring_char(word_start, len));
    out
}

} // verus!
