//! Preparing a raw origin line for shaping: line endings become spaces so
//! that the rendered row keeps one column per origin column.

use vstd::prelude::*;

verus! {

/// A line with its ending replaced by spaces, column for column.
pub open spec fn spec_strip_suffix(s: Seq<char>) -> Seq<char> {
    if s.len() >= 2 && s[s.len() - 2] == '\r' && s[s.len() - 1] == '\n' {
        s.subrange(0, s.len() - 2) + seq![' ', ' ']
    } else if s.len() >= 1 && s[s.len() - 1] == '\n' {
        s.subrange(0, s.len() - 1) + seq![' ']
    } else {
        s
    }
}

/// Append the line to `rs` with its line ending replaced by spaces.
pub fn push_strip_suffix(line_content_original: &str, rs: &mut String)
    ensures
        final(rs)@ == old(rs)@ + spec_strip_suffix(line_content_original@),
{
    proof {
        reveal_strlit("  ");
        reveal_strlit(" ");
    }
    let n = line_content_original.unicode_len();
    if n >= 2 && line_content_original.get_char(n - 2) == '\r' && line_content_original.get_char(
        n - 1,
    ) == '\n' {
        let body = line_content_original.substring_char(0, n - 2);
        rs.append(body);
        rs.append("  ");
        proof {
            assert("  "@ =~= seq![' ', ' ']);
            assert(old(rs)@ + (line_content_original@.subrange(0, n - 2) + seq![' ', ' ']) =~= (old(
                rs,
            )@ + line_content_original@.subrange(0, n - 2)) + "  "@);
        }
    } else if n >= 1 && line_content_original.get_char(n - 1) == '\n' {
        let body = line_content_original.substring_char(0, n - 1);
        rs.append(body);
        rs.append(" ");
        proof {
            assert(" "@ =~= seq![' ']);
            assert(old(rs)@ + (line_content_original@.subrange(0, n - 1) + seq![' ']) =~= (old(rs)@
                + line_content_original@.subrange(0, n - 1)) + " "@);
        }
    } else {
        rs.append(line_content_original);
    }
}

} // verus!
