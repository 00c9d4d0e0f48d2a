//! Character-sequence utilities shared by the line splitter and tokenizer:
//! trimming, splitting on a separator character, and whitespace tokenization,
//! each as a spec function with a verified executable counterpart.

use vstd::prelude::*;

verus! {

/// The characters with the Unicode `White_Space` property, the class
/// `char::is_whitespace` accepts and the class a token never contains.
pub open spec fn is_space(c: char) -> bool {
    ('\u{9}' <= c && c <= '\u{d}') || c == ' ' || c == '\u{85}' || c == '\u{a0}' || c == '\u{1680}'
        || ('\u{2000}' <= c && c <= '\u{200a}') || c == '\u{2028}' || c == '\u{2029}'
        || c == '\u{202f}' || c == '\u{205f}' || c == '\u{3000}'
}

/// The views of a sequence of strings.
pub open spec fn views(v: Seq<String>) -> Seq<Seq<char>> {
    v.map_values(|s: String| s@)
}

/// `s` without its leading whitespace.
pub open spec fn trim_left(s: Seq<char>) -> Seq<char>
    decreases s.len(),
{
    if s.len() > 0 && is_space(s.first()) {
        trim_left(s.drop_first())
    } else {
        s
    }
}

/// `s` without its trailing whitespace.
pub open spec fn trim_right(s: Seq<char>) -> Seq<char>
    decreases s.len(),
{
    if s.len() > 0 && is_space(s.last()) {
        trim_right(s.drop_last())
    } else {
        s
    }
}

/// `s` without leading or trailing whitespace.
pub open spec fn trim(s: Seq<char>) -> Seq<char> {
    trim_right(trim_left(s))
}

/// An executable copy of the character range `from..to` of `s`.
pub fn substring(s: &String, from: usize, to: usize) -> (r: String)
    requires
        from <= to <= s@.len(),
    ensures
        r@ == s@.subrange(from as int, to as int),
{
    String::from_str(s.as_str().substring_char(from, to))
}

/// `s` with leading and trailing whitespace removed.
pub fn trim_string(s: &String) -> (r: String)
    ensures
        r@ == trim(s@),
{
    let n: usize = s.as_str().unicode_len();
    proof {
        assert(s@.skip(0) =~= s@);
    }
    let mut start: usize = 0;
    while start < n && is_space_exec(s.as_str().get_char(start))
        invariant
            start <= n,
            n == s@.len(),
            trim_left(s@) == trim_left(s@.skip(start as int)),
        decreases n - start,
    {
        proof {
            assert(s@.skip(start as int).drop_first() =~= s@.skip(start as int + 1));
        }
        start = start + 1;
    }
    proof {
        assert(trim_left(s@.skip(start as int)) == s@.skip(start as int));
        assert(s@.skip(start as int) =~= s@.subrange(start as int, n as int));
    }
    let mut end: usize = n;
    while end > start && is_space_exec(s.as_str().get_char(end - 1))
        invariant
            start <= end <= n,
            n == s@.len(),
            trim_left(s@) == s@.subrange(start as int, n as int),
            trim_right(s@.subrange(start as int, end as int)) == trim_right(
                s@.subrange(start as int, n as int),
            ),
        decreases end,
    {
        proof {
            assert(s@.subrange(start as int, end as int).drop_last() =~= s@.subrange(
                start as int,
                end as int - 1,
            ));
        }
        end = end - 1;
    }
    proof {
        assert(trim_right(s@.subrange(start as int, end as int)) == s@.subrange(
            start as int,
            end as int,
        ));
    }
    substring(s, start, end)
}

/// The pieces of `s` between occurrences of `sep`, in order. Every piece is
/// kept, so splitting an empty sequence gives one empty piece, and adjacent
/// separators give empty pieces between them.
pub open spec fn split_char(s: Seq<char>, sep: char) -> Seq<Seq<char>>
    decreases s.len(),
{
    if s.len() == 0 {
        seq![Seq::<char>::empty()]
    } else if s.last() == sep {
        split_char(s.drop_last(), sep).push(Seq::<char>::empty())
    } else {
        let r = split_char(s.drop_last(), sep);
        r.update(r.len() - 1, r.last().push(s.last()))
    }
}

pub proof fn lemma_split_char_len(s: Seq<char>, sep: char)
    ensures
        split_char(s, sep).len() >= 1,
    decreases s.len(),
{
    if s.len() > 0 {
        lemma_split_char_len(s.drop_last(), sep);
    }
}

/// The pieces of `s` between occurrences of `sep`.
pub fn split_on_char(s: &String, sep: char) -> (r: Vec<String>)
    ensures
        views(r@) == split_char(s@, sep),
{
    let n: usize = s.as_str().unicode_len();
    let mut done: Vec<String> = Vec::new();
    let mut seg_start: usize = 0;
    let mut i: usize = 0;
    proof {
        assert(s@.take(0) =~= Seq::<char>::empty());
        assert(views(done@).push(s@.subrange(0, 0)) =~= split_char(s@.take(0), sep));
    }
    while i < n
        invariant
            seg_start <= i <= n,
            n == s@.len(),
            views(done@).push(s@.subrange(seg_start as int, i as int)) == split_char(
                s@.take(i as int),
                sep,
            ),
        decreases n - i,
    {
        let ghost prev = split_char(s@.take(i as int), sep);
        proof {
            assert(s@.take(i as int + 1).drop_last() =~= s@.take(i as int));
            assert(s@.take(i as int + 1).last() == s@[i as int]);
            lemma_split_char_len(s@.take(i as int), sep);
        }
        if s.as_str().get_char(i) == sep {
            let piece = substring(s, seg_start, i);
            done.push(piece);
            seg_start = i + 1;
            proof {
                assert(views(done@) =~= prev);
                assert(s@.subrange(seg_start as int, i as int + 1) =~= Seq::<char>::empty());
            }
        } else {
            proof {
                assert(prev.last() == s@.subrange(seg_start as int, i as int));
                assert(s@.subrange(seg_start as int, i as int).push(s@[i as int]) =~= s@.subrange(
                    seg_start as int,
                    i as int + 1,
                ));
                assert(views(done@).push(s@.subrange(seg_start as int, i as int + 1)) =~= prev
                    .update(prev.len() - 1, prev.last().push(s@[i as int])));
            }
        }
        i = i + 1;
    }
    let last_piece = substring(s, seg_start, n);
    done.push(last_piece);
    proof {
        assert(s@.take(n as int) =~= s@);
        assert(views(done@) =~= views(done@.drop_last()).push(s@.subrange(
            seg_start as int,
            n as int,
        )));
    }
    done
}

/// The maximal runs of non-whitespace characters of `s`, in order.
pub open spec fn tokens(s: Seq<char>) -> Seq<Seq<char>>
    decreases s.len(),
{
    if s.len() == 0 {
        Seq::<Seq<char>>::empty()
    } else {
        let r = tokens(s.drop_last());
        if is_space(s.last()) {
            r
        } else if s.len() == 1 || is_space(s[s.len() - 2]) {
            r.push(seq![s.last()])
        } else {
            r.update(r.len() - 1, r.last().push(s.last()))
        }
    }
}

/// The whitespace-separated tokens of `s`.
pub fn tokenize(s: &String) -> (r: Vec<String>)
    ensures
        views(r@) == tokens(s@),
{
    let n: usize = s.as_str().unicode_len();
    let mut done: Vec<String> = Vec::new();
    let mut tok_start: usize = 0;
    let mut in_token: bool = false;
    let mut i: usize = 0;
    proof {
        assert(s@.take(0) =~= Seq::<char>::empty());
        assert(views(done@) =~= tokens(s@.take(0)));
    }
    while i < n
        invariant
            i <= n,
            n == s@.len(),
            in_token ==> tok_start < i && !is_space(s@[i - 1]) && views(done@).push(s@.subrange(
                tok_start as int,
                i as int,
            )) == tokens(s@.take(i as int)) && (tok_start == 0 || is_space(s@[tok_start - 1]))
                && (forall|k: int| tok_start <= k < i ==> !is_space(s@[k])),
            !in_token ==> (i == 0 || is_space(s@[i - 1])) && views(done@) == tokens(
                s@.take(i as int),
            ),
        decreases n - i,
    {
        let ghost prev = tokens(s@.take(i as int));
        proof {
            assert(s@.take(i as int + 1).drop_last() =~= s@.take(i as int));
            assert(s@.take(i as int + 1).last() == s@[i as int]);
        }
        let c = s.as_str().get_char(i);
        if is_space_exec(c) {
            if in_token {
                let tok = substring(s, tok_start, i);
                done.push(tok);
                in_token = false;
                proof {
                    assert(views(done@) =~= prev);
                }
            }
        } else {
            if in_token {
                proof {
                    assert(!is_space(s@.take(i as int + 1)[i - 1]));
                    assert(s@.subrange(tok_start as int, i as int).push(s@[i as int])
                        =~= s@.subrange(tok_start as int, i as int + 1));
                    assert(views(done@).push(s@.subrange(tok_start as int, i as int + 1)) =~= prev
                        .update(prev.len() - 1, prev.last().push(s@[i as int])));
                }
            } else {
                tok_start = i;
                in_token = true;
                proof {
                    assert(s@.subrange(i as int, i as int + 1) =~= seq![s@[i as int]]);
                    assert(views(done@).push(s@.subrange(tok_start as int, i as int + 1)) =~= prev
                        .push(seq![s@[i as int]]));
                }
            }
        }
        i = i + 1;
    }
    proof {
        assert(s@.take(n as int) =~= s@);
    }
    if in_token {
        let tok = substring(s, tok_start, n);
        done.push(tok);
        proof {
            assert(views(done@) =~= views(done@.drop_last()).push(s@.subrange(
                tok_start as int,
                n as int,
            )));
        }
    }
    done
}

/// The trimmed, non-empty entries of `segs`, in order: the segments of a
/// logical line that actually become commands.
pub open spec fn kept_segments(segs: Seq<Seq<char>>) -> Seq<Seq<char>>
    decreases segs.len(),
{
    if segs.len() == 0 {
        Seq::<Seq<char>>::empty()
    } else {
        let r = kept_segments(segs.drop_last());
        let t = trim(segs.last());
        if t.len() == 0 {
            r
        } else {
            r.push(t)
        }
    }
}

/// The commands of one logical line: the pieces between `;` separators,
/// each trimmed, the empty ones dropped.
pub open spec fn commands_of_line(line: Seq<char>) -> Seq<Seq<char>> {
    kept_segments(split_char(line, ';'))
}

/// Whether `s` is nothing but whitespace.
pub open spec fn all_space(s: Seq<char>) -> bool {
    forall|k: int| 0 <= k < s.len() ==> is_space(#[trigger] s[k])
}

/// Trimming a whitespace-only sequence leaves nothing.
pub proof fn lemma_all_space_trim_empty(s: Seq<char>)
    requires
        all_space(s),
    ensures
        trim(s).len() == 0,
    decreases s.len(),
{
    if s.len() > 0 {
        assert(all_space(s.drop_first()));
        lemma_all_space_trim_empty(s.drop_first());
        assert(trim_left(s) == trim_left(s.drop_first()));
    }
}

/// Splitting a sequence of separators and whitespace leaves only
/// whitespace-only pieces.
pub proof fn lemma_space_split_segments(s: Seq<char>, sep: char)
    requires
        forall|k: int| 0 <= k < s.len() ==> s[k] == sep || is_space(#[trigger] s[k]),
    ensures
        forall|j: int|
            0 <= j < split_char(s, sep).len() ==> all_space(#[trigger] split_char(s, sep)[j]),
    decreases s.len(),
{
    if s.len() > 0 {
        let d = s.drop_last();
        assert(forall|k: int| 0 <= k < d.len() ==> d[k] == sep || is_space(#[trigger] d[k]));
        lemma_space_split_segments(d, sep);
        let r = split_char(d, sep);
        if s.last() == sep {
            assert(forall|j: int|
                0 <= j < split_char(s, sep).len() ==> all_space(
                    #[trigger] split_char(s, sep)[j],
                )) by {
                assert(split_char(s, sep) == r.push(Seq::<char>::empty()));
                assert(all_space(Seq::<char>::empty()));
            }
        } else {
            assert(is_space(s.last()));
            lemma_split_char_len(d, sep);
            let ext = r.last().push(s.last());
            assert(all_space(ext)) by {
                assert(all_space(r[r.len() - 1]));
                assert(forall|k: int| 0 <= k < ext.len() - 1 ==> ext[k] == r.last()[k]);
            }
            assert(split_char(s, sep) == r.update(r.len() - 1, ext));
        }
    }
}

/// Keeping the trimmed, non-empty entries of whitespace-only pieces keeps
/// nothing.
pub proof fn lemma_space_segments_kept_empty(segs: Seq<Seq<char>>)
    requires
        forall|j: int| 0 <= j < segs.len() ==> all_space(#[trigger] segs[j]),
    ensures
        kept_segments(segs).len() == 0,
    decreases segs.len(),
{
    if segs.len() > 0 {
        let d = segs.drop_last();
        assert(forall|j: int| 0 <= j < d.len() ==> all_space(#[trigger] d[j]));
        lemma_space_segments_kept_empty(d);
        assert(all_space(segs[segs.len() - 1]));
        lemma_all_space_trim_empty(segs.last());
    }
}

/// The concatenation of `parts`.
pub open spec fn concat_seqs(parts: Seq<Seq<char>>) -> Seq<char>
    decreases parts.len(),
{
    if parts.len() == 0 {
        Seq::<char>::empty()
    } else {
        concat_seqs(parts.drop_last()) + parts.last()
    }
}

/// One string holding every element of `parts`, in order.
pub fn concat_strings(parts: &Vec<String>) -> (r: String)
    ensures
        r@ == concat_seqs(views(parts@)),
{
    let mut r = String::new();
    let mut i: usize = 0;
    proof {
        assert(views(parts@).take(0) =~= Seq::<Seq<char>>::empty());
        assert(r@ =~= concat_seqs(views(parts@).take(0)));
    }
    while i < parts.len()
        invariant
            i <= parts@.len(),
            r@ == concat_seqs(views(parts@).take(i as int)),
        decreases parts@.len() - i,
    {
        proof {
            assert(views(parts@).take(i as int + 1).drop_last() =~= views(parts@).take(i as int));
            assert(views(parts@).take(i as int + 1).last() == parts@[i as int]@);
        }
        r.append(parts[i].as_str());
        i = i + 1;
    }
    proof {
        assert(views(parts@).take(parts@.len() as int) =~= views(parts@));
    }
    r
}

/// `s` without a single trailing `c`, if one is present.
pub open spec fn strip_last(s: Seq<char>, c: char) -> Seq<char> {
    if s.len() > 0 && s.last() == c {
        s.drop_last()
    } else {
        s
    }
}

/// `s` without a single trailing `c`, if one is present.
pub fn strip_suffix_char(s: &String, c: char) -> (r: String)
    ensures
        r@ == strip_last(s@, c),
{
    let n: usize = s.as_str().unicode_len();
    if n > 0 && s.as_str().get_char(n - 1) == c {
        proof {
            assert(s@.subrange(0, n as int - 1) =~= s@.drop_last());
        }
        substring(s, 0, n - 1)
    } else {
        proof {
            assert(s@.subrange(0, n as int) =~= s@);
        }
        substring(s, 0, n)
    }
}

/// Executable test for `is_space`.
pub fn is_space_exec(c: char) -> (r: bool)
    ensures
        r == is_space(c),
{
    ('\u{9}' <= c && c <= '\u{d}') || c == ' ' || c == '\u{85}' || c == '\u{a0}' || c == '\u{1680}'
        || ('\u{2000}' <= c && c <= '\u{200a}') || c == '\u{2028}' || c == '\u{2029}'
        || c == '\u{202f}' || c == '\u{205f}' || c == '\u{3000}'
}

} // verus!
