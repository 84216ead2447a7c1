//! Virtual files: bracketed path segments that mark code introduced by macro
//! expansion. A path such as `lib.cairo[assert_macro]` points into generated
//! code; the bracketed segments decide the macro gate of the filter and are
//! removed from the paths of the final report.
use vstd::prelude::*;

verus! {

/// Positions `i < j` delimit a bracketed segment: an opening bracket, a
/// closing bracket, and no line break between them.
pub open spec fn is_bracket_pair(s: Seq<char>, i: int, j: int) -> bool {
    &&& 0 <= i < j < s.len()
    &&& s[i] == '['
    &&& s[j] == ']'
    &&& forall|k: int| i < k < j ==> s[k] != '\n'
}

/// The path contains a bracketed segment.
pub open spec fn has_virtual_segment(s: Seq<char>) -> bool {
    exists|i: int, j: int| is_bracket_pair(s, i, j)
}

/// Whether the path contains a bracketed segment.
pub fn has_virtual_file_segment(s: &str) -> (r: bool)
    ensures
        r == has_virtual_segment(s@),
{
    let n = s.unicode_len();
    let mut open = false;
    let ghost mut open_at: int = 0;
    let mut pos: usize = 0;
    while pos < n
        invariant
            pos <= n,
            n == s@.len(),
            open ==> {
                &&& 0 <= open_at < pos
                &&& s@[open_at] == '['
                &&& forall|k: int| open_at < k < pos ==> s@[k] != '\n'
            },
            !open ==> forall|i: int|
                0 <= i < pos ==> !(s@[i] == '[' && (forall|k: int|
                    i < k < pos ==> s@[k] != '\n')),
            forall|i: int, j: int| 0 <= i < j < pos ==> !is_bracket_pair(s@, i, j),
        decreases n - pos,
    {
        let c = s.get_char(pos);
        if c == ']' {
            if open {
                proof {
                    assert(is_bracket_pair(s@, open_at, pos as int));
                }
                return true;
            }
            proof {
                assert forall|i: int, j: int| 0 <= i < j < pos + 1 implies !is_bracket_pair(
                    s@,
                    i,
                    j,
                ) by {
                    if j == pos && is_bracket_pair(s@, i, j) {
                        assert(s@[i] == '[' && (forall|k: int| i < k < pos ==> s@[k] != '\n'));
                    }
                }
            }
        } else if c == '[' {
            proof {
                if !open {
                    open_at = pos as int;
                }
            }
            open = true;
        } else if c == '\n' {
            open = false;
            proof {
                assert forall|i: int|
                    0 <= i < pos + 1 implies !(s@[i] == '[' && (forall|k: int|
                    i < k < pos + 1 ==> s@[k] != '\n')) by {
                    if s@[i] == '[' {
                        assert(s@[pos as int] == '\n');
                    }
                }
            }
        }
        pos = pos + 1;
    }
    proof {
        if has_virtual_segment(s@) {
            let (i, j) = choose|i: int, j: int| is_bracket_pair(s@, i, j);
            assert(!is_bracket_pair(s@, i, j));
        }
    }
    false
}

/// The position of the first closing bracket at or after `i`, or -1 when a
/// line break or the end of the path comes first.
pub open spec fn scan_close(s: Seq<char>, i: int) -> int
    decreases s.len() - i,
{
    if i < 0 || i >= s.len() {
        -1
    } else if s[i] == ']' {
        i
    } else if s[i] == '\n' {
        -1
    } else {
        scan_close(s, i + 1)
    }
}

/// The path from position `i` on, with every leftmost-shortest bracketed
/// segment removed: an opening bracket with a closing bracket on the same
/// line swallows everything up to that closing bracket; every other
/// character is kept.
pub open spec fn strip_from(s: Seq<char>, i: int) -> Seq<char>
    decreases s.len() - i,
{
    if i < 0 || i >= s.len() {
        Seq::empty()
    } else if s[i] == '[' && i < scan_close(s, i + 1) && scan_close(s, i + 1) < s.len() {
        strip_from(s, scan_close(s, i + 1) + 1)
    } else {
        seq![s[i]] + strip_from(s, i + 1)
    }
}

/// The path with its bracketed segments removed.
pub open spec fn strip_virtual(s: Seq<char>) -> Seq<char> {
    strip_from(s, 0)
}

/// A scan that starts before a closing bracket, with no line break on the
/// way, finds that closing bracket.
proof fn lemma_scan_close_found(s: Seq<char>, j: int, pos: int)
    requires
        0 <= j <= pos < s.len(),
        forall|k: int| j <= k < pos ==> s[k] != ']' && s[k] != '\n',
        s[pos] == ']',
    ensures
        scan_close(s, j) == pos,
    decreases pos - j,
{
    if j < pos {
        lemma_scan_close_found(s, j + 1, pos);
    }
}

/// A scan that meets a line break before any closing bracket finds nothing.
proof fn lemma_scan_close_newline(s: Seq<char>, j: int, pos: int)
    requires
        0 <= j <= pos < s.len(),
        forall|k: int| j <= k < pos ==> s[k] != ']' && s[k] != '\n',
        s[pos] == '\n',
    ensures
        scan_close(s, j) == -1,
    decreases pos - j,
{
    if j < pos {
        lemma_scan_close_newline(s, j + 1, pos);
    }
}

/// A scan that runs to the end of the path finds nothing.
proof fn lemma_scan_close_end(s: Seq<char>, j: int)
    requires
        0 <= j <= s.len(),
        forall|k: int| j <= k < s.len() ==> s[k] != ']' && s[k] != '\n',
    ensures
        scan_close(s, j) == -1,
    decreases s.len() - j,
{
    if j < s.len() {
        lemma_scan_close_end(s, j + 1);
    }
}

/// Characters before a line break, none of them a closing bracket or a line
/// break themselves, are all kept, the line break included.
proof fn lemma_strip_flush(s: Seq<char>, from: int, upto: int)
    requires
        0 <= from <= upto < s.len(),
        forall|k: int| from <= k < upto ==> s[k] != ']' && s[k] != '\n',
        s[upto] == '\n',
    ensures
        strip_from(s, from) == s.subrange(from, upto + 1) + strip_from(s, upto + 1),
    decreases upto - from,
{
    if from == upto {
        assert(strip_from(s, from) == seq![s[from]] + strip_from(s, from + 1));
        assert(s.subrange(from, upto + 1) =~= seq![s[from]]);
    } else {
        if s[from] == '[' {
            lemma_scan_close_newline(s, from + 1, upto);
        }
        assert(strip_from(s, from) == seq![s[from]] + strip_from(s, from + 1));
        lemma_strip_flush(s, from + 1, upto);
        assert(s.subrange(from, upto + 1) =~= seq![s[from]] + s.subrange(from + 1, upto + 1));
        assert(strip_from(s, from) =~= s.subrange(from, upto + 1) + strip_from(s, upto + 1));
    }
}

/// Characters that run to the end of the path, none of them a closing bracket
/// or a line break, are all kept.
proof fn lemma_strip_flush_end(s: Seq<char>, from: int)
    requires
        0 <= from <= s.len(),
        forall|k: int| from <= k < s.len() ==> s[k] != ']' && s[k] != '\n',
    ensures
        strip_from(s, from) == s.subrange(from, s.len() as int),
    decreases s.len() - from,
{
    if from == s.len() {
        assert(s.subrange(from, s.len() as int) =~= Seq::<char>::empty());
    } else {
        if s[from] == '[' {
            lemma_scan_close_end(s, from + 1);
        }
        assert(strip_from(s, from) == seq![s[from]] + strip_from(s, from + 1));
        lemma_strip_flush_end(s, from + 1);
        assert(s.subrange(from, s.len() as int) =~= seq![s[from]] + s.subrange(
            from + 1,
            s.len() as int,
        ));
        assert(strip_from(s, from) =~= s.subrange(from, s.len() as int));
    }
}

/// Remove every bracketed segment from the path.
pub fn strip_virtual_file_segments(s: &str) -> (r: String)
    ensures
        r@ == strip_virtual(s@),
{
    let n = s.unicode_len();
    let mut out = String::new();
    let mut open = false;
    let mut open_at: usize = 0;
    let mut pos: usize = 0;
    while pos < n
        invariant
            pos <= n,
            n == s@.len(),
            !open ==> strip_from(s@, 0) == out@ + strip_from(s@, pos as int),
            open ==> {
                &&& open_at < pos
                &&& s@[open_at as int] == '['
                &&& forall|k: int| open_at < k < pos ==> s@[k] != ']' && s@[k] != '\n'
                &&& strip_from(s@, 0) == out@ + strip_from(s@, open_at as int)
            },
        decreases n - pos,
    {
        let c = s.get_char(pos);
        if !open {
            if c == '[' {
                open = true;
                open_at = pos;
            } else {
                let piece = s.substring_char(pos, pos + 1);
                out.append(piece);
                proof {
                    if s@[pos as int] == '[' {
                        assert(false);
                    }
                    assert(strip_from(s@, pos as int) == seq![s@[pos as int]] + strip_from(
                        s@,
                        pos + 1,
                    ));
                    assert(piece@ =~= seq![s@[pos as int]]);
                }
            }
        } else {
            if c == ']' {
                proof {
                    lemma_scan_close_found(s@, open_at + 1, pos as int);
                    assert(strip_from(s@, open_at as int) == strip_from(s@, pos + 1));
                }
                open = false;
            } else if c == '\n' {
                let piece = s.substring_char(open_at, pos + 1);
                out.append(piece);
                proof {
                    lemma_strip_flush(s@, open_at as int, pos as int);
                    assert(piece@ =~= s@.subrange(open_at as int, pos + 1));
                }
                open = false;
            }
        }
        pos = pos + 1;
    }
    if open {
        let piece = s.substring_char(open_at, n);
        out.append(piece);
        proof {
            lemma_strip_flush_end(s@, open_at as int);
            assert(piece@ =~= s@.subrange(open_at as int, s@.len() as int));
            assert(strip_from(s@, n as int) =~= Seq::<char>::empty());
            assert(out@ =~= strip_virtual(s@));
        }
    } else {
        proof {
            assert(strip_from(s@, n as int) =~= Seq::<char>::empty());
            assert(out@ =~= strip_virtual(s@));
        }
    }
    out
}

} // verus!
