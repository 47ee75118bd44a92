//! Escapes reply text for the platform's rich-text markup while preserving
//! intentional formatting.
//!
//! Code blocks and inline code are copied untouched; bold and italic spans
//! keep their markers while their contents are escaped; everything else has
//! the markup's special characters escaped with a backslash.  An opening
//! marker without a matching closer is left as plain text.

use vstd::prelude::*;
use crate::text::{chars_of, string_of, find_spec, lemma_find_spec, find_from};

verus! {

/// Characters escaped inside a bold or italic span.
pub open spec fn escape_in_formatted_spec(c: char) -> bool {
    c == '\\' || c == '`' || c == '[' || c == ']' || c == '(' || c == ')' || c == '~' || c == '>'
        || c == '#' || c == '+' || c == '-' || c == '=' || c == '|' || c == '{' || c == '}' || c
        == '.' || c == '!'
}

/// Characters escaped outside of any formatting span.
pub open spec fn escape_outside_spec(c: char) -> bool {
    c == '\\' || c == '[' || c == ']' || c == '(' || c == ')' || c == '~' || c == '>' || c == '#'
        || c == '+' || c == '-' || c == '=' || c == '|' || c == '{' || c == '}' || c == '.' || c
        == '!'
}

/// Whether `c` must be escaped inside formatted text.
pub fn should_escape_in_formatted(c: char) -> (r: bool)
    ensures
        r == escape_in_formatted_spec(c),
{
    c == '\\' || c == '`' || c == '[' || c == ']' || c == '(' || c == ')' || c == '~' || c == '>'
        || c == '#' || c == '+' || c == '-' || c == '=' || c == '|' || c == '{' || c == '}' || c
        == '.' || c == '!'
}

/// Whether `c` must be escaped outside formatted text.
pub fn should_escape_outside(c: char) -> (r: bool)
    ensures
        r == escape_outside_spec(c),
{
    c == '\\' || c == '[' || c == ']' || c == '(' || c == ')' || c == '~' || c == '>' || c == '#'
        || c == '+' || c == '-' || c == '=' || c == '|' || c == '{' || c == '}' || c == '.' || c
        == '!'
}

/// Index of the third backtick of the leftmost closing code fence at or
/// after `j`, or `-1` when there is none.
pub open spec fn code_end_at(s: Seq<char>, j: int) -> int {
    let f = find_spec(s.skip(j), seq!['`', '`', '`']);
    if f < 0 {
        -1
    } else {
        j + f + 2
    }
}

/// Index of the first `closing` character at or after `j`, or `-1`; the
/// search gives up at a line break, so inline spans never cross lines.
pub open spec fn char_end_at(s: Seq<char>, j: int, closing: char) -> int
    decreases s.len() - j,
        when 0 <= j
{
    if j >= s.len() {
        -1
    } else if s[j] == closing {
        j
    } else if s[j] == '\n' {
        -1
    } else {
        char_end_at(s, j + 1, closing)
    }
}

/// Start of the leftmost occurrence of `pat` at or after `j`, or `-1`.
pub open spec fn pattern_at(s: Seq<char>, j: int, pat: Seq<char>) -> int {
    let f = find_spec(s.skip(j), pat);
    if f < 0 {
        -1
    } else {
        j + f
    }
}

/// Finds the closing code fence, as `code_end_at` describes it.
pub fn find_closing_code_block(chars: &Vec<char>, start: usize) -> (r: Option<usize>)
    requires
        start <= chars@.len(),
    ensures
        match r {
            Some(e) => code_end_at(chars@, start as int) == e && start + 2 <= e < chars@.len(),
            None => code_end_at(chars@, start as int) == -1,
        },
{
    let n = chars.len();
    let pat: Vec<char> = vec!['`', '`', '`'];
    proof {
        assert(pat@ =~= seq!['`', '`', '`']);
        lemma_find_spec(chars@.skip(start as int), seq!['`', '`', '`']);
    }
    match find_from(chars, start, &pat) {
        Some(i) => {
            proof {
                assert(i - start + 3 <= chars@.skip(start as int).len());
                assert(i + 3 <= n);
            }
            Some(i + 2)
        },
        None => None,
    }
}

/// Finds the closing character before the next line break, as
/// `char_end_at` describes it.
pub fn find_closing_char(chars: &Vec<char>, start: usize, closing: char) -> (r: Option<usize>)
    requires
        start <= chars@.len(),
    ensures
        match r {
            Some(e) => char_end_at(chars@, start as int, closing) == e && start <= e
                < chars@.len(),
            None => char_end_at(chars@, start as int, closing) == -1,
        },
{
    let mut j: usize = start;
    while j < chars.len()
        invariant
            start <= j <= chars@.len(),
            char_end_at(chars@, start as int, closing) == char_end_at(chars@, j as int, closing),
        decreases chars@.len() - j,
    {
        let c = chars[j];
        if c == closing {
            return Some(j);
        }
        if c == '\n' {
            return None;
        }
        j = j + 1;
    }
    None
}

/// Finds the leftmost occurrence of the closing pattern, as `pattern_at`
/// describes it.
pub fn find_closing_pattern(chars: &Vec<char>, start: usize, pattern: &Vec<char>) -> (r: Option<
    usize,
>)
    requires
        start <= chars@.len(),
    ensures
        match r {
            Some(e) => pattern_at(chars@, start as int, pattern@) == e && start <= e && e
                + pattern@.len() <= chars@.len(),
            None => pattern_at(chars@, start as int, pattern@) == -1,
        },
{
    proof {
        lemma_find_spec(chars@.skip(start as int), pattern@);
    }
    find_from(chars, start, pattern)
}

/// The span contents with formatted-text escaping applied.
pub open spec fn inner_escaped(s: Seq<char>, lo: int, hi: int) -> Seq<char>
    decreases hi - lo,
        when lo <= hi
{
    if lo >= hi {
        Seq::empty()
    } else {
        (if escape_in_formatted_spec(s[lo]) {
            seq!['\\', s[lo]]
        } else {
            seq![s[lo]]
        }) + inner_escaped(s, lo + 1, hi)
    }
}

/// The escaped text from position `i` on: code spans copied untouched, bold
/// and italic spans escaped inside their markers, special characters
/// escaped elsewhere, and unmatched markers left as plain text.
pub open spec fn escape_md(s: Seq<char>, i: int) -> Seq<char>
    decreases s.len() - i,
        when 0 <= i <= s.len()
{
    if i >= s.len() {
        Seq::empty()
    } else {
        let c = s[i];
        let cb = code_end_at(s, i + 3);
        let ic = char_end_at(s, i + 1, '`');
        let b2 = pattern_at(s, i + 2, seq!['*', '*']);
        let b1 = pattern_at(s, i + 1, seq!['*']);
        let it = char_end_at(s, i + 1, '_');
        if c == '`' && i + 2 < s.len() && s[i + 1] == '`' && s[i + 2] == '`' && i + 3 <= s.len()
            && i + 3 <= cb && cb + 1 <= s.len() {
            s.subrange(i, cb + 1) + escape_md(s, cb + 1)
        } else if c == '`' && i + 1 <= ic && ic + 1 <= s.len() {
            s.subrange(i, ic + 1) + escape_md(s, ic + 1)
        } else if c == '*' && i + 1 < s.len() && s[i + 1] == '*' && i + 2 <= b2 && b2 + 2
            <= s.len() {
            seq!['*', '*'] + inner_escaped(s, i + 2, b2) + seq!['*', '*'] + escape_md(s, b2 + 2)
        } else if c == '*' && !(i + 1 < s.len() && s[i + 1] == '*') && i + 1 <= b1 && b1 + 1
            <= s.len() {
            seq!['*'] + inner_escaped(s, i + 1, b1) + seq!['*'] + escape_md(s, b1 + 1)
        } else if c == '_' && i + 1 <= it && it + 1 <= s.len() {
            seq!['_'] + inner_escaped(s, i + 1, it) + seq!['_'] + escape_md(s, it + 1)
        } else {
            (if escape_outside_spec(c) {
                seq!['\\', c]
            } else {
                seq![c]
            }) + escape_md(s, i + 1)
        }
    }
}

fn copy_range(out: &mut Vec<char>, chars: &Vec<char>, from: usize, to: usize)
    requires
        from <= to <= chars@.len(),
    ensures
        final(out)@ == old(out)@ + chars@.subrange(from as int, to as int),
{
    let mut j: usize = from;
    while j < to
        invariant
            from <= j <= to <= chars@.len(),
            out@ == old(out)@ + chars@.subrange(from as int, j as int),
        decreases to - j,
    {
        out.push(chars[j]);
        j = j + 1;
        proof {
            assert(out@ =~= old(out)@ + chars@.subrange(from as int, j as int));
        }
    }
    proof {
        assert(out@ =~= old(out)@ + chars@.subrange(from as int, to as int));
    }
}

fn copy_escaped(out: &mut Vec<char>, chars: &Vec<char>, from: usize, to: usize)
    requires
        from <= to <= chars@.len(),
    ensures
        final(out)@ == old(out)@ + inner_escaped(chars@, from as int, to as int),
{
    let mut j: usize = from;
    while j < to
        invariant
            from <= j <= to <= chars@.len(),
            out@ + inner_escaped(chars@, j as int, to as int) == old(out)@ + inner_escaped(
                chars@,
                from as int,
                to as int,
            ),
        decreases to - j,
    {
        let c = chars[j];
        let ghost before = out@;
        if should_escape_in_formatted(c) {
            out.push('\\');
        }
        out.push(c);
        j = j + 1;
        proof {
            if escape_in_formatted_spec(c) {
                assert(out@ =~= before + seq!['\\', c]);
            } else {
                assert(out@ =~= before + seq![c]);
            }
            assert(before + (if escape_in_formatted_spec(c) {
                seq!['\\', c]
            } else {
                seq![c]
            }) + inner_escaped(chars@, j as int, to as int) =~= before + ((if
            escape_in_formatted_spec(c) {
                seq!['\\', c]
            } else {
                seq![c]
            }) + inner_escaped(chars@, j as int, to as int)));
        }
    }
    proof {
        assert(out@ + inner_escaped(chars@, to as int, to as int) =~= out@);
    }
}

/// Escapes text for the platform's rich-text markup, as `escape_md`
/// describes it, preserving intentional formatting.
pub fn escape_markdown_v2(text: &str) -> (r: String)
    ensures
        r@ == escape_md(text@, 0),
{
    let chars = chars_of(text);
    let len = chars.len();
    let mut out: Vec<char> = Vec::new();
    let mut i: usize = 0;
    proof {
        assert(out@ + escape_md(chars@, 0) =~= escape_md(chars@, 0));
    }
    while i < len
        invariant
            i <= len,
            len == chars@.len(),
            chars@ == text@,
            escape_md(text@, 0) == out@ + escape_md(chars@, i as int),
        decreases len - i,
    {
        let ghost before = out@;
        let c = chars[i];
        if c == '`' && len - i > 2 && chars[i + 1] == '`' && chars[i + 2] == '`' {
            match find_closing_code_block(&chars, i + 3) {
                Some(end) => {
                    copy_range(&mut out, &chars, i, end + 1);
                    proof {
                        assert(escape_md(chars@, i as int) =~= chars@.subrange(
                            i as int,
                            end + 1,
                        ) + escape_md(chars@, end + 1));
                        assert(before + (chars@.subrange(i as int, end + 1) + escape_md(
                            chars@,
                            end + 1,
                        )) =~= out@ + escape_md(chars@, end + 1));
                    }
                    i = end + 1;
                    continue ;
                },
                None => {},
            }
        }
        if c == '`' {
            match find_closing_char(&chars, i + 1, '`') {
                Some(end) => {
                    copy_range(&mut out, &chars, i, end + 1);
                    proof {
                        assert(code_end_at(chars@, i + 3) < 0 || !(i + 2 < len && chars@[i + 1]
                            == '`' && chars@[i + 2] == '`'));
                        assert(escape_md(chars@, i as int) =~= chars@.subrange(
                            i as int,
                            end + 1,
                        ) + escape_md(chars@, end + 1));
                        assert(before + (chars@.subrange(i as int, end + 1) + escape_md(
                            chars@,
                            end + 1,
                        )) =~= out@ + escape_md(chars@, end + 1));
                    }
                    i = end + 1;
                    continue ;
                },
                None => {},
            }
        }
        if c == '*' {
            let double = i + 1 < len && chars[i + 1] == '*';
            if double {
                let pat: Vec<char> = vec!['*', '*'];
                proof {
                    assert(pat@ =~= seq!['*', '*']);
                }
                match find_closing_pattern(&chars, i + 2, &pat) {
                    Some(end) => {
                        out.push('*');
                        out.push('*');
                        let ghost mid = out@;
                        proof {
                            assert(mid =~= before + seq!['*', '*']);
                        }
                        copy_escaped(&mut out, &chars, i + 2, end);
                        out.push('*');
                        out.push('*');
                        proof {
                            assert(escape_md(chars@, i as int) =~= seq!['*', '*']
                                + inner_escaped(chars@, i + 2, end as int) + seq!['*', '*']
                                + escape_md(chars@, end + 2));
                            assert(out@ =~= before + (seq!['*', '*'] + inner_escaped(
                                chars@,
                                i + 2,
                                end as int,
                            ) + seq!['*', '*']));
                            assert(before + escape_md(chars@, i as int) =~= out@ + escape_md(
                                chars@,
                                end + 2,
                            ));
                        }
                        i = end + 2;
                        continue ;
                    },
                    None => {},
                }
            } else {
                let pat: Vec<char> = vec!['*'];
                proof {
                    assert(pat@ =~= seq!['*']);
                }
                match find_closing_pattern(&chars, i + 1, &pat) {
                    Some(end) => {
                        out.push('*');
                        copy_escaped(&mut out, &chars, i + 1, end);
                        out.push('*');
                        proof {
                            assert(escape_md(chars@, i as int) =~= seq!['*'] + inner_escaped(
                                chars@,
                                i + 1,
                                end as int,
                            ) + seq!['*'] + escape_md(chars@, end + 1));
                            assert(out@ =~= before + (seq!['*'] + inner_escaped(
                                chars@,
                                i + 1,
                                end as int,
                            ) + seq!['*']));
                            assert(before + escape_md(chars@, i as int) =~= out@ + escape_md(
                                chars@,
                                end + 1,
                            ));
                        }
                        i = end + 1;
                        continue ;
                    },
                    None => {},
                }
            }
        }
        if c == '_' {
            match find_closing_char(&chars, i + 1, '_') {
                Some(end) => {
                    out.push('_');
                    copy_escaped(&mut out, &chars, i + 1, end);
                    out.push('_');
                    proof {
                        assert(escape_md(chars@, i as int) =~= seq!['_'] + inner_escaped(
                            chars@,
                            i + 1,
                            end as int,
                        ) + seq!['_'] + escape_md(chars@, end + 1));
                        assert(out@ =~= before + (seq!['_'] + inner_escaped(
                            chars@,
                            i + 1,
                            end as int,
                        ) + seq!['_']));
                        assert(before + escape_md(chars@, i as int) =~= out@ + escape_md(
                            chars@,
                            end + 1,
                        ));
                    }
                    i = end + 1;
                    continue ;
                },
                None => {},
            }
        }
        if should_escape_outside(c) {
            out.push('\\');
        }
        out.push(c);
        proof {
            if escape_outside_spec(c) {
                assert(out@ =~= before + seq!['\\', c]);
            } else {
                assert(out@ =~= before + seq![c]);
            }
            assert(escape_md(chars@, i as int) =~= (if escape_outside_spec(c) {
                seq!['\\', c]
            } else {
                seq![c]
            }) + escape_md(chars@, i + 1));
            assert(before + escape_md(chars@, i as int) =~= out@ + escape_md(chars@, i + 1));
        }
        i = i + 1;
    }
    proof {
        assert(escape_md(chars@, len as int) =~= Seq::<char>::empty());
        assert(out@ =~= escape_md(text@, 0));
    }
    string_of(&out)
}

} // verus!
