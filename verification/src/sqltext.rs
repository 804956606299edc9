//! Splitting a SQL schema script into statements: semicolon-terminated
//! lines end a statement, except inside a dollar-quoted block, which
//! runs from a line containing `$$` to a line ending with `$$`. Blank
//! lines and `--` comment lines are dropped.

use vstd::prelude::*;
use vstd::string::StringExecFns;
use crate::text::push_char;
use crate::text::split_chars;
use crate::text::split_on_char;
use crate::text::trim_spec;
use crate::text::trim_str;

verus! {

/// The line without one trailing carriage return, as line splitting
/// leaves on text with Windows line endings.
pub open spec fn strip_cr(l: Seq<char>) -> Seq<char> {
    if l.len() > 0 && l.last() == '\r' {
        l.drop_last()
    } else {
        l
    }
}

/// Blank, or a `--` comment.
pub open spec fn is_comment_or_blank(t: Seq<char>) -> bool {
    t.len() == 0 || (t.len() >= 2 && t[0] == '-' && t[1] == '-')
}

/// Whether the trimmed line contains a `$$` marker.
pub open spec fn has_dollar_quote(t: Seq<char>) -> bool {
    exists|k: int| 0 <= k < t.len() - 1 && t[k] == '$' && #[trigger] t[k + 1] == '$'
}

pub open spec fn ends_with_semi(t: Seq<char>) -> bool {
    t.len() >= 1 && t.last() == ';'
}

pub open spec fn ends_with_dollar(t: Seq<char>) -> bool {
    t.len() >= 2 && t[t.len() - 2] == '$' && t.last() == '$'
}

/// How one line moves the splitter along: the statements emitted so
/// far, the statement being built, and whether a dollar-quoted block
/// is open.
pub open spec fn sql_step(
    stmts: Seq<Seq<char>>,
    current: Seq<char>,
    in_dq: bool,
    line: Seq<char>,
) -> (Seq<Seq<char>>, Seq<char>, bool) {
    let t = trim_spec(line);
    if is_comment_or_blank(t) {
        (stmts, current, in_dq)
    } else if !in_dq {
        let entered = has_dollar_quote(t);
        let cur = current + line + seq!['\n'];
        if !entered && ends_with_semi(t) {
            (stmts.push(cur), Seq::<char>::empty(), false)
        } else {
            (stmts, cur, entered)
        }
    } else {
        let cur = current + line + seq!['\n'];
        if ends_with_dollar(t) {
            (stmts, cur, false)
        } else {
            (stmts, cur, true)
        }
    }
}

/// The splitter's state after the first `n` lines.
pub open spec fn sql_fold(lines: Seq<Seq<char>>, n: int) -> (Seq<Seq<char>>, Seq<char>, bool)
    decreases n,
{
    if n <= 0 {
        (Seq::<Seq<char>>::empty(), Seq::<char>::empty(), false)
    } else {
        let st = sql_fold(lines, n - 1);
        sql_step(st.0, st.1, st.2, lines[n - 1])
    }
}

/// The statements of a schema script, dollar-quoted blocks preserved;
/// a trailing statement without its semicolon still counts unless it
/// trims to nothing.
pub open spec fn spec_split_sql(sql: Seq<char>) -> Seq<Seq<char>> {
    let lines = split_chars(sql, '\n').map_values(|l: Seq<char>| strip_cr(l));
    let st = sql_fold(lines, lines.len() as int);
    if trim_spec(st.1).len() > 0 {
        st.0.push(st.1)
    } else {
        st.0
    }
}

fn strip_cr_str<'a>(s: &'a str) -> (r: &'a str)
    ensures
        r@ == strip_cr(s@),
{
    let n = s.unicode_len();
    if n > 0 && s.get_char(n - 1) == '\r' {
        let r = s.substring_char(0, n - 1);
        proof {
            assert(r@ =~= s@.drop_last());
        }
        r
    } else {
        s
    }
}

fn line_is_comment_or_blank(t: &str) -> (r: bool)
    ensures
        r == is_comment_or_blank(t@),
{
    let n = t.unicode_len();
    n == 0 || (n >= 2 && t.get_char(0) == '-' && t.get_char(1) == '-')
}

fn line_has_dollar(t: &str) -> (r: bool)
    ensures
        r == has_dollar_quote(t@),
{
    let n = t.unicode_len();
    if n < 2 {
        return false;
    }
    let mut k: usize = 0;
    while k < n - 1
        invariant
            k <= n - 1,
            n == t@.len(),
            n >= 2,
            forall|m: int| 0 <= m < k ==> !(t@[m] == '$' && #[trigger] t@[m + 1] == '$'),
        decreases n - k,
    {
        if t.get_char(k) == '$' && t.get_char(k + 1) == '$' {
            return true;
        }
        k = k + 1;
    }
    false
}

fn line_ends_semi(t: &str) -> (r: bool)
    ensures
        r == ends_with_semi(t@),
{
    let n = t.unicode_len();
    n >= 1 && t.get_char(n - 1) == ';'
}

fn line_ends_dollar(t: &str) -> (r: bool)
    ensures
        r == ends_with_dollar(t@),
{
    let n = t.unicode_len();
    n >= 2 && t.get_char(n - 2) == '$' && t.get_char(n - 1) == '$'
}

/// Splits a schema script into statements while preserving
/// dollar-quoted blocks.
pub fn split_sql_statements(sql: &str) -> (r: Vec<String>)
    ensures
        r@.map_values(|s: String| s@) == spec_split_sql(sql@),
{
    let raw_lines = split_on_char(sql, '\n');
    let ghost lines = split_chars(sql@, '\n').map_values(|l: Seq<char>| strip_cr(l));
    proof {
        assert(raw_lines@.len() == lines.len());
    }
    let mut statements: Vec<String> = Vec::new();
    let mut current = String::new();
    let mut in_dq = false;
    let mut i: usize = 0;
    proof {
        assert(statements@.map_values(|s: String| s@) =~= sql_fold(lines, 0).0);
    }
    while i < raw_lines.len()
        invariant
            i <= raw_lines@.len(),
            raw_lines@.map_values(|p: String| p@) == split_chars(sql@, '\n'),
            lines == split_chars(sql@, '\n').map_values(|l: Seq<char>| strip_cr(l)),
            statements@.map_values(|s: String| s@) == sql_fold(lines, i as int).0,
            current@ == sql_fold(lines, i as int).1,
            in_dq == sql_fold(lines, i as int).2,
        decreases raw_lines@.len() - i,
    {
        let line = strip_cr_str(raw_lines[i].as_str());
        proof {
            assert(raw_lines@.map_values(|p: String| p@)[i as int] == raw_lines@[i as int]@);
            assert(lines[i as int] == strip_cr(split_chars(sql@, '\n')[i as int]));
            assert(line@ == lines[i as int]);
        }
        let trimmed = trim_str(line);
        if line_is_comment_or_blank(trimmed) {
            proof {
                assert(sql_fold(lines, i + 1 as int).0 == sql_fold(lines, i as int).0);
            }
        } else if !in_dq {
            let entered = line_has_dollar(trimmed);
            let ghost old_current = current@;
            current.append(line);
            push_char(&mut current, '\n');
            proof {
                assert(current@ =~= old_current + line@ + seq!['\n']);
            }
            if !entered && line_ends_semi(trimmed) {
                let ghost old_statements = statements@;
                statements.push(current);
                current = String::new();
                proof {
                    assert(statements@.map_values(|s: String| s@) =~= old_statements.map_values(
                        |s: String| s@,
                    ).push(statements@.last()@));
                }
            } else {
                in_dq = entered;
            }
        } else {
            let ghost old_current = current@;
            current.append(line);
            push_char(&mut current, '\n');
            proof {
                assert(current@ =~= old_current + line@ + seq!['\n']);
            }
            if line_ends_dollar(trimmed) {
                in_dq = false;
            }
        }
        i = i + 1;
    }
    let tail_trimmed = trim_str(current.as_str());
    if tail_trimmed.unicode_len() > 0 {
        let ghost old_statements = statements@;
        statements.push(current);
        proof {
            assert(statements@.map_values(|s: String| s@) =~= old_statements.map_values(
                |s: String| s@,
            ).push(statements@.last()@));
            assert(statements@.map_values(|s: String| s@) =~= spec_split_sql(sql@));
        }
    } else {
        proof {
            assert(statements@.map_values(|s: String| s@) =~= spec_split_sql(sql@));
        }
    }
    statements
}

} // verus!
