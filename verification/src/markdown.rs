//! Markdown post-processing: escaping newlines inside link labels and
//! removing "Skip to Content" fragment links.

use vstd::prelude::*;

use crate::text::{chars_to_string, lower_char, lower_char_exec, str_to_chars};

verus! {

/// Bracket-depth update for one character: `[` opens, `]` closes (floor zero).
pub open spec fn bracket_step(depth: nat, c: char) -> nat {
    if c == '[' {
        depth + 1
    } else if c == ']' {
        if depth > 0 {
            (depth - 1) as nat
        } else {
            0
        }
    } else {
        depth
    }
}

/// Newline escaping inside link labels: a literal newline seen while the
/// bracket depth is positive becomes a backslash followed by the newline.
pub open spec fn escape_link_newlines(s: Seq<char>, depth: nat) -> Seq<char>
    decreases s.len(),
{
    if s.len() == 0 {
        s
    } else {
        let c = s[0];
        let d = bracket_step(depth, c);
        let head: Seq<char> = if c == '\n' && d > 0 {
            seq!['\\', '\n']
        } else {
            seq![c]
        };
        head + escape_link_newlines(s.subrange(1, s.len() as int), d)
    }
}

/// The label of a skip link, lower-cased.
pub open spec fn skip_label() -> Seq<char> {
    "skip to content"@
}

/// A markdown link `[Skip to Content](#...` begins at position `i` of `s`
/// (label matched case-insensitively, destination a same-page fragment).
pub open spec fn skip_link_head_at(s: Seq<char>, i: int) -> bool {
    &&& 0 <= i
    &&& i + 19 <= s.len()
    &&& s[i] == '['
    &&& s.subrange(i + 1, i + 16).map_values(|c: char| lower_char(c)) == skip_label()
    &&& s[i + 16] == ']'
    &&& s[i + 17] == '('
    &&& s[i + 18] == '#'
}

/// Position of the first `)` at or after `from`, if any.
pub open spec fn close_paren_after(s: Seq<char>, from: int) -> Option<int>
    decreases s.len() - from,
{
    if from < 0 || from >= s.len() {
        None
    } else if s[from] == ')' {
        Some(from)
    } else {
        close_paren_after(s, from + 1)
    }
}

/// Removal of every `[Skip to Content](#...)` span; text outside the matched
/// spans passes through unchanged.
pub open spec fn remove_skip_links(s: Seq<char>) -> Seq<char>
    decreases s.len(),
{
    if s.len() == 0 {
        s
    } else if skip_link_head_at(s, 0) && close_paren_after(s, 19) is Some {
        let j = close_paren_after(s, 19)->0;
        if 0 <= j < s.len() {
            remove_skip_links(s.subrange(j + 1, s.len() as int))
        } else {
            s
        }
    } else {
        seq![s[0]] + remove_skip_links(s.subrange(1, s.len() as int))
    }
}

/// A found closing parenthesis lies at or after the start of the search and
/// inside the sequence.
proof fn close_paren_in_range(s: Seq<char>, from: int)
    requires
        close_paren_after(s, from) is Some,
    ensures
        from <= close_paren_after(s, from)->0 < s.len(),
    decreases s.len() - from,
{
    if from < 0 || from >= s.len() {
    } else if s[from] == ')' {
    } else {
        close_paren_in_range(s, from + 1);
    }
}

/// `close_paren_after` over the suffix starting at `i` agrees with the whole
/// sequence, offset by `i`.
proof fn close_paren_shift(s: Seq<char>, i: int, off: int)
    requires
        0 <= i,
        0 <= off,
        i + off <= s.len(),
    ensures
        ({
            let rest = s.subrange(i, s.len() as int);
            match close_paren_after(s, i + off) {
                Some(j) => close_paren_after(rest, off) == Some(j - i),
                None => close_paren_after(rest, off) is None,
            }
        }),
    decreases s.len() - off - i,
{
    let rest = s.subrange(i, s.len() as int);
    if i + off >= s.len() {
    } else {
        assert(rest[off] == s[i + off]);
        if s[i + off] == ')' {
        } else {
            close_paren_shift(s, i, off + 1);
        }
    }
}

/// A skip-link head at `i` in `s` is a skip-link head at 0 of the suffix.
proof fn skip_head_shift(s: Seq<char>, i: int)
    requires
        0 <= i <= s.len(),
    ensures
        skip_link_head_at(s, i) == skip_link_head_at(s.subrange(i, s.len() as int), 0),
{
    let rest = s.subrange(i, s.len() as int);
    if i + 19 <= s.len() {
        assert(rest.subrange(1, 16) =~= s.subrange(i + 1, i + 16));
    }
}

/// Whether a skip link starts at position `i`, executable form.
fn skip_link_head_at_exec(s: &Vec<char>, i: usize) -> (r: bool)
    requires
        i < s.len(),
    ensures
        r == skip_link_head_at(s@, i as int),
{
    if s.len() - i < 19 {
        return false;
    }
    if s[i] != '[' || s[i + 16] != ']' || s[i + 17] != '(' || s[i + 18] != '#' {
        return false;
    }
    let label = str_to_chars("skip to content");
    proof {
        reveal_strlit("skip to content");
        assert(label@.len() == 15);
    }
    for k in 0..15usize
        invariant
            i + 19 <= s.len(),
            label@ == skip_label(),
            label@.len() == 15,
            forall|j: int| 0 <= j < k ==> lower_char(s@[i + 1 + j]) == skip_label()[j],
    {
        if lower_char_exec(s[i + 1 + k]) != label[k] {
            proof {
                let m = s@.subrange(i + 1, i + 16).map_values(|c: char| lower_char(c));
                assert(m.len() == 15);
                assert(m[k as int] == lower_char(s@[i + 1 + k]));
            }
            return false;
        }
    }
    proof {
        let m = s@.subrange(i + 1, i + 16).map_values(|c: char| lower_char(c));
        assert(m =~= skip_label());
    }
    true
}

/// Remove every `[Skip to Content](#...)` markdown link from the text.
///
/// Everything outside the matched spans, spacing and casing included, is
/// returned unchanged.
pub fn remove_skip_to_content_links(input: &str) -> (r: String)
    ensures
        r@ == remove_skip_links(input@),
{
    let s = str_to_chars(input);
    let mut out: Vec<char> = Vec::new();
    let mut i: usize = 0;
    proof {
        assert(s@.subrange(0, s@.len() as int) =~= s@);
        assert(out@ + remove_skip_links(s@) =~= remove_skip_links(s@));
    }
    while i < s.len()
        invariant
            i <= s.len(),
            out@ + remove_skip_links(s@.subrange(i as int, s@.len() as int)) == remove_skip_links(
                s@,
            ),
        decreases s.len() - i,
    {
        let ghost rest = s@.subrange(i as int, s@.len() as int);
        if skip_link_head_at_exec(&s, i) {
            proof {
                skip_head_shift(s@, i as int);
            }
            // look for the closing parenthesis
            let mut j: usize = i + 19;
            let mut found: bool = false;
            while j < s.len() && !found
                invariant
                    i + 19 <= j <= s.len(),
                    close_paren_after(s@, i + 19) == close_paren_after(s@, j as int),
                    found ==> j < s.len() && s@[j as int] == ')',
                decreases s.len() - j + (if found {
                    0int
                } else {
                    1int
                }),
            {
                if s[j] == ')' {
                    found = true;
                } else {
                    j = j + 1;
                }
            }
            if found {
                proof {
                    assert(close_paren_after(s@, i + 19) == Some(j as int));
                    close_paren_shift(s@, i as int, 19);
                    assert(close_paren_after(rest, 19) == Some(j - i));
                    assert(remove_skip_links(rest) == remove_skip_links(
                        rest.subrange(j - i + 1, rest.len() as int),
                    ));
                    assert(rest.subrange(j - i + 1, rest.len() as int) =~= s@.subrange(
                        j + 1,
                        s@.len() as int,
                    ));
                }
                i = j + 1;
                continue ;
            } else {
                proof {
                    assert(close_paren_after(s@, j as int) is None);
                    close_paren_shift(s@, i as int, 19);
                    assert(close_paren_after(rest, 19) is None);
                }
            }
        } else {
            proof {
                skip_head_shift(s@, i as int);
            }
        }
        proof {
            assert(!(skip_link_head_at(rest, 0) && close_paren_after(rest, 19) is Some));
            assert(remove_skip_links(rest) == seq![rest[0]] + remove_skip_links(
                rest.subrange(1, rest.len() as int),
            ));
            assert(rest[0] == s@[i as int]);
            assert(rest.subrange(1, rest.len() as int) =~= s@.subrange(i + 1, s@.len() as int));
        }
        out.push(s[i]);
        i = i + 1;
    }
    proof {
        assert(s@.subrange(s@.len() as int, s@.len() as int) =~= Seq::<char>::empty());
        assert(out@ =~= remove_skip_links(s@));
    }
    chars_to_string(&out)
}

/// Escape newlines that fall inside bracketed link labels, then remove
/// "skip to content" fragment links.
pub fn post_process_markdown(markdown: &str) -> (r: String)
    ensures
        r@ == remove_skip_links(escape_link_newlines(markdown@, 0)),
{
    let s = str_to_chars(markdown);
    let mut out: Vec<char> = Vec::new();
    let mut depth: usize = 0;
    proof {
        assert(s@.subrange(0, s@.len() as int) =~= s@);
        assert(out@ + escape_link_newlines(s@, 0) =~= escape_link_newlines(s@, 0));
    }
    for i in 0..s.len()
        invariant
            depth <= i,
            out@ + escape_link_newlines(s@.subrange(i as int, s@.len() as int), depth as nat)
                == escape_link_newlines(s@, 0),
    {
        let ghost rest = s@.subrange(i as int, s@.len() as int);
        let c = s[i];
        if c == '[' {
            depth = depth + 1;
        } else if c == ']' {
            if depth > 0 {
                depth = depth - 1;
            }
        }
        proof {
            assert(rest[0] == c);
            assert(rest.subrange(1, rest.len() as int) =~= s@.subrange(i + 1, s@.len() as int));
        }
        if c == '\n' && depth > 0 {
            out.push('\\');
            out.push('\n');
        } else {
            out.push(c);
        }
    }
    proof {
        assert(s@.subrange(s@.len() as int, s@.len() as int) =~= Seq::<char>::empty());
        assert(out@ =~= escape_link_newlines(s@, 0));
    }
    let escaped = chars_to_string(&out);
    remove_skip_to_content_links(escaped.as_str())
}

} // verus!
