//! The model behind the case engine: whitespace classification,
//! tokenization of a string into words, joining words back together,
//! and names for the standard library's case mappings.

use vstd::prelude::*;

verus! {

/// The Unicode scalar values that `char::is_whitespace` accepts
/// (the `White_Space` property).
pub open spec fn is_ws(c: char) -> bool {
    ||| c == ' '
    ||| c == '\t'
    ||| c == '\n'
    ||| c == '\u{000B}'
    ||| c == '\u{000C}'
    ||| c == '\r'
    ||| c == '\u{0085}'
    ||| c == '\u{00A0}'
    ||| c == '\u{1680}'
    ||| (0x2000 <= c as u32 && c as u32 <= 0x200A)
    ||| c == '\u{2028}'
    ||| c == '\u{2029}'
    ||| c == '\u{202F}'
    ||| c == '\u{205F}'
    ||| c == '\u{3000}'
}

/// Decides `is_ws`, mirroring `char::is_whitespace`.
pub fn is_whitespace_char(c: char) -> (r: bool)
    ensures
        r == is_ws(c),
{
    let u = c as u32;
    u == 0x20 || u == 0x09 || u == 0x0A || u == 0x0B || u == 0x0C || u == 0x0D || u == 0x85
        || u == 0xA0 || u == 0x1680 || (0x2000 <= u && u <= 0x200A) || u == 0x2028 || u == 0x2029
        || u == 0x202F || u == 0x205F || u == 0x3000
}

/// The words of `s` that follow the partial word `cur`: splitting on runs
/// of whitespace, discarding empty fields.
pub open spec fn split_ws_acc(s: Seq<char>, cur: Seq<char>) -> Seq<Seq<char>>
    decreases s.len(),
{
    if s.len() == 0 {
        if cur.len() == 0 {
            Seq::empty()
        } else {
            seq![cur]
        }
    } else if is_ws(s[0]) {
        if cur.len() == 0 {
            split_ws_acc(s.drop_first(), Seq::empty())
        } else {
            seq![cur] + split_ws_acc(s.drop_first(), Seq::empty())
        }
    } else {
        split_ws_acc(s.drop_first(), cur.push(s[0]))
    }
}

/// The words of `s`: maximal runs of non-whitespace characters, in order.
pub open spec fn words(s: Seq<char>) -> Seq<Seq<char>> {
    split_ws_acc(s, Seq::empty())
}

/// Every word produced from a whitespace-free partial word is non-empty
/// and free of whitespace.
proof fn lemma_split_ws_acc_wf(s: Seq<char>, cur: Seq<char>)
    requires
        forall|i: int| 0 <= i < cur.len() ==> !is_ws(cur[i]),
    ensures
        forall|k: int|
            0 <= k < split_ws_acc(s, cur).len() ==> {
                let t = #[trigger] split_ws_acc(s, cur)[k];
                t.len() > 0 && (forall|i: int| 0 <= i < t.len() ==> !is_ws(t[i]))
            },
    decreases s.len(),
{
    if s.len() == 0 {
        if cur.len() > 0 {
            assert(split_ws_acc(s, cur) == seq![cur]);
            assert(seq![cur][0] == cur);
        }
    } else if is_ws(s[0]) {
        lemma_split_ws_acc_wf(s.drop_first(), Seq::empty());
        if cur.len() == 0 {
            assert(split_ws_acc(s, cur) == split_ws_acc(s.drop_first(), Seq::empty()));
        }
        if cur.len() > 0 {
            let ts = split_ws_acc(s, cur);
            let rest = split_ws_acc(s.drop_first(), Seq::empty());
            assert(ts == seq![cur] + rest);
            assert forall|k: int|
                0 <= k < ts.len() implies {
                let t = #[trigger] ts[k];
                t.len() > 0 && (forall|i: int| 0 <= i < t.len() ==> !is_ws(t[i]))
            } by {
                if k == 0 {
                    assert(ts[0] == cur);
                } else {
                    assert(ts[k] == rest[k - 1]);
                }
            }
        }
    } else {
        assert(forall|i: int| 0 <= i < cur.len() + 1 ==> !is_ws(cur.push(s[0])[i]));
        lemma_split_ws_acc_wf(s.drop_first(), cur.push(s[0]));
        assert(split_ws_acc(s, cur) == split_ws_acc(s.drop_first(), cur.push(s[0])));
    }
}

/// Law: every word of a string is non-empty and contains no whitespace.
pub proof fn lemma_words_wf(s: Seq<char>)
    ensures
        forall|k: int|
            0 <= k < words(s).len() ==> {
                let t = #[trigger] words(s)[k];
                t.len() > 0 && (forall|i: int| 0 <= i < t.len() ==> !is_ws(t[i]))
            },
{
    lemma_split_ws_acc_wf(s, Seq::empty());
}

/// When neither the partial word nor the rest holds any whitespace, the
/// split yields the single word made of both.
proof fn lemma_split_ws_acc_solid(s: Seq<char>, cur: Seq<char>)
    requires
        forall|i: int| 0 <= i < s.len() ==> !is_ws(s[i]),
        cur.len() + s.len() > 0,
    ensures
        split_ws_acc(s, cur) == seq![cur + s],
    decreases s.len(),
{
    if s.len() == 0 {
        assert(cur + s =~= cur);
    } else {
        let rest = s.drop_first();
        assert(forall|i: int| 0 <= i < rest.len() ==> !is_ws(rest[i]));
        lemma_split_ws_acc_solid(rest, cur.push(s[0]));
        assert(cur.push(s[0]) + rest =~= cur + s);
    }
}

/// Law: a non-empty string without whitespace is a single word.
pub proof fn lemma_words_of_solid(s: Seq<char>)
    requires
        forall|i: int| 0 <= i < s.len() ==> !is_ws(s[i]),
        s.len() > 0,
    ensures
        words(s) == seq![s],
{
    lemma_split_ws_acc_solid(s, Seq::empty());
    assert(Seq::<char>::empty() + s =~= s);
}

/// A name for what `str::to_lowercase` returns: a function of the input's
/// characters alone.
pub uninterp spec fn lower_of(s: Seq<char>) -> Seq<char>;

/// A name for what `str::to_uppercase` returns: a function of the input's
/// characters alone.
pub uninterp spec fn upper_of(s: Seq<char>) -> Seq<char>;

/// A name for what `char::is_alphabetic` returns: a function of the
/// character alone.
pub uninterp spec fn alphabetic(c: char) -> bool;

/// Relies on `str::to_lowercase`: the result depends only on the
/// characters of the input, and an empty string stays empty.
#[verifier::external_body]
pub(crate) fn to_lowercase_str(s: &str) -> (r: String)
    ensures
        r@ == lower_of(s@),
        s@.len() == 0 ==> r@.len() == 0,
{
    s.to_lowercase()
}

/// Relies on `str::to_uppercase`: the result depends only on the
/// characters of the input, and an empty string stays empty.
#[verifier::external_body]
pub(crate) fn to_uppercase_str(s: &str) -> (r: String)
    ensures
        r@ == upper_of(s@),
        s@.len() == 0 ==> r@.len() == 0,
{
    s.to_uppercase()
}

/// Relies on `char::is_alphabetic`: the result depends on the character
/// alone.
#[verifier::external_body]
pub(crate) fn is_alphabetic_char(c: char) -> (r: bool)
    ensures
        r == alphabetic(c),
{
    c.is_alphabetic()
}

/// Relies on `String::push`: appends one character at the end of the
/// string.
#[verifier::external_body]
pub(crate) fn push_char(s: &mut String, c: char)
    ensures
        final(s)@ == old(s)@.push(c),
{
    s.push(c);
}

/// A one-character sequence holding the first character of `s`, or the
/// empty sequence when `s` is empty.
pub open spec fn first_of(s: Seq<char>) -> Seq<char> {
    if s.len() == 0 {
        Seq::empty()
    } else {
        seq![s[0]]
    }
}

/// `s` with every whitespace character removed, in original order.
pub open spec fn remove_ws_spec(s: Seq<char>) -> Seq<char>
    decreases s.len(),
{
    if s.len() == 0 {
        Seq::empty()
    } else if is_ws(s.last()) {
        remove_ws_spec(s.drop_last())
    } else {
        remove_ws_spec(s.drop_last()).push(s.last())
    }
}

/// The words joined with a single underscore between each pair.
pub open spec fn join_under(ts: Seq<Seq<char>>) -> Seq<char>
    decreases ts.len(),
{
    if ts.len() == 0 {
        Seq::empty()
    } else if ts.len() == 1 {
        ts[0]
    } else {
        join_under(ts.drop_last()) + seq!['_'] + ts.last()
    }
}

/// A word with its first character uppercased and the rest untouched.
pub open spec fn upper_first(w: Seq<char>) -> Seq<char> {
    upper_of(w.take(1)) + w.skip(1)
}

/// The words concatenated, each with its first character uppercased.
pub open spec fn pascal_join(ts: Seq<Seq<char>>) -> Seq<char>
    decreases ts.len(),
{
    if ts.len() == 0 {
        Seq::empty()
    } else {
        pascal_join(ts.drop_last()) + upper_first(ts.last())
    }
}

/// The words concatenated: the first lowercased in full, every later one
/// with its first character uppercased and the rest untouched.
pub open spec fn camel_join(ts: Seq<Seq<char>>) -> Seq<char>
    decreases ts.len(),
{
    if ts.len() == 0 {
        Seq::empty()
    } else if ts.len() == 1 {
        lower_of(ts[0])
    } else {
        camel_join(ts.drop_last()) + upper_first(ts.last())
    }
}

/// What `to_snake_case` produces from `s`.
pub open spec fn snake_case_of(s: Seq<char>) -> Seq<char> {
    join_under(words(s))
}

/// What `to_camel_case` produces from `s`.
pub open spec fn camel_case_of(s: Seq<char>) -> Seq<char> {
    camel_join(words(s))
}

/// What `to_pascal_case` produces from `s`.
pub open spec fn pascal_case_of(s: Seq<char>) -> Seq<char> {
    pascal_join(words(s))
}

/// The camel-case rule: not equal to its own lowercasing, a first
/// character that is not uppercase, and every character alphabetic.
pub open spec fn camel_case_rule(s: Seq<char>) -> bool {
    &&& s != lower_of(s)
    &&& first_of(s) != upper_of(first_of(s))
    &&& forall|i: int| 0 <= i < s.len() ==> alphabetic(s[i])
}

/// The pascal-case rule: not equal to its own lowercasing, a first
/// character that is uppercase, and every character alphabetic.
pub open spec fn pascal_case_rule(s: Seq<char>) -> bool {
    &&& s != lower_of(s)
    &&& first_of(s) == upper_of(first_of(s))
    &&& forall|i: int| 0 <= i < s.len() ==> alphabetic(s[i])
}

/// The snake-case rule: equal to its own lowercasing, at least one
/// underscore, and every character alphabetic or an underscore.
pub open spec fn snake_case_rule(s: Seq<char>) -> bool {
    &&& s == lower_of(s)
    &&& exists|i: int| 0 <= i < s.len() && s[i] == '_'
    &&& forall|i: int| 0 <= i < s.len() ==> alphabetic(s[i]) || s[i] == '_'
}

/// Joined well-formed words hold no whitespace, and at least one word
/// joins into a non-empty result.
proof fn lemma_join_under_wf(ts: Seq<Seq<char>>)
    requires
        forall|k: int|
            0 <= k < ts.len() ==> {
                let t = #[trigger] ts[k];
                t.len() > 0 && (forall|i: int| 0 <= i < t.len() ==> !is_ws(t[i]))
            },
    ensures
        forall|i: int| 0 <= i < join_under(ts).len() ==> !is_ws(join_under(ts)[i]),
        ts.len() > 0 ==> join_under(ts).len() > 0,
    decreases ts.len(),
{
    if ts.len() == 0 {
    } else if ts.len() == 1 {
        assert(join_under(ts) == ts[0]);
    } else {
        let front = ts.drop_last();
        assert(forall|k: int|
            0 <= k < front.len() ==> {
                let t = #[trigger] front[k];
                t.len() > 0 && (forall|i: int| 0 <= i < t.len() ==> !is_ws(t[i]))
            });
        lemma_join_under_wf(front);
        let out = join_under(ts);
        let left = join_under(front);
        assert(out == left + seq!['_'] + ts.last());
        assert(!is_ws('_'));
        assert forall|i: int| 0 <= i < out.len() implies !is_ws(out[i]) by {
            if i < left.len() {
                assert(out[i] == left[i]);
            } else if i == left.len() {
                assert(out[i] == '_');
            } else {
                assert(out[i] == ts.last()[i - left.len() - 1]);
            }
        }
    }
}

/// Law: converting to snake case is a fixed point on its own output —
/// re-applying `to_snake_case` to an already converted string gives the
/// same string back.
pub proof fn lemma_snake_case_fixed_point(s: Seq<char>)
    ensures
        snake_case_of(snake_case_of(s)) == snake_case_of(s),
{
    let ts = words(s);
    lemma_words_wf(s);
    if ts.len() == 0 {
        assert(snake_case_of(s) == Seq::<char>::empty());
        assert(words(Seq::<char>::empty()) == Seq::<Seq<char>>::empty());
    } else {
        let out = join_under(ts);
        lemma_join_under_wf(ts);
        lemma_words_of_solid(out);
        assert(words(out) == seq![out]);
        assert(join_under(seq![out]) == seq![out][0]);
    }
}

/// Whether `a` is a subsequence of `b`: every element of `a` occurs in
/// `b`, in the same relative order.
pub open spec fn is_subseq_of<T>(a: Seq<T>, b: Seq<T>) -> bool
    decreases b.len(),
{
    if a.len() == 0 {
        true
    } else if b.len() == 0 {
        false
    } else if a.last() == b.last() {
        is_subseq_of(a.drop_last(), b.drop_last())
    } else {
        is_subseq_of(a, b.drop_last())
    }
}

/// A subsequence stays one after dropping its own last element.
proof fn lemma_subseq_drop<T>(a: Seq<T>, b: Seq<T>)
    requires
        is_subseq_of(a, b),
        a.len() > 0,
    ensures
        is_subseq_of(a.drop_last(), b),
    decreases b.len(),
{
    let a2 = a.drop_last();
    if b.len() > 0 {
        if a.last() == b.last() {
            if a2.len() > 0 {
                if a2.last() == b.last() {
                    lemma_subseq_drop(a2, b.drop_last());
                }
            }
        } else {
            lemma_subseq_drop(a, b.drop_last());
            if a2.len() > 0 {
                if a2.last() == b.last() {
                    lemma_subseq_drop(a2, b.drop_last());
                }
            }
        }
    }
}

/// A subsequence stays one when the larger sequence grows at the end.
proof fn lemma_subseq_extend<T>(a: Seq<T>, b: Seq<T>, x: T)
    requires
        is_subseq_of(a, b),
    ensures
        is_subseq_of(a, b.push(x)),
{
    if a.len() > 0 {
        assert(b.push(x).drop_last() =~= b);
        if a.last() == x {
            lemma_subseq_drop(a, b);
        }
    }
}

/// Law: a string with its whitespace removed holds no whitespace and is
/// a subsequence of the original, in the original order.
pub proof fn lemma_remove_ws_subseq(s: Seq<char>)
    ensures
        forall|i: int|
            0 <= i < remove_ws_spec(s).len() ==> !is_ws(#[trigger] remove_ws_spec(s)[i]),
        is_subseq_of(remove_ws_spec(s), s),
    decreases s.len(),
{
    if s.len() > 0 {
        let dl = s.drop_last();
        lemma_remove_ws_subseq(dl);
        assert(dl.push(s.last()) =~= s);
        if is_ws(s.last()) {
            lemma_subseq_extend(remove_ws_spec(dl), dl, s.last());
        } else {
            let r = remove_ws_spec(s);
            assert(r == remove_ws_spec(dl).push(s.last()));
            assert(r.drop_last() =~= remove_ws_spec(dl));
            assert forall|i: int| 0 <= i < r.len() implies !is_ws(#[trigger] r[i]) by {
                if i < r.len() - 1 {
                    assert(r[i] == remove_ws_spec(dl)[i]);
                }
            }
        }
    }
}

/// The character sequences held by a vector of character vectors.
pub open spec fn seqs_of(ws: Seq<Vec<char>>) -> Seq<Seq<char>> {
    ws.map_values(|w: Vec<char>| w@)
}

/// The characters of `s`, in order, as a vector.
pub(crate) fn chars_of(s: &str) -> (v: Vec<char>)
    ensures
        v@ == s@,
{
    let n = s.unicode_len();
    let mut v: Vec<char> = Vec::new();
    let mut i: usize = 0;
    while i < n
        invariant
            i <= n,
            n == s@.len(),
            v@ == s@.take(i as int),
        decreases n - i,
    {
        let c = s.get_char(i);
        v.push(c);
        proof {
            assert(s@.take(i + 1) =~= s@.take(i as int).push(s@[i as int]));
        }
        i = i + 1;
    }
    proof {
        assert(s@.take(n as int) =~= s@);
    }
    v
}

/// Appends the characters of `v` from index `start` on to `out`.
pub(crate) fn push_chars(out: &mut String, v: &Vec<char>, start: usize)
    requires
        start <= v@.len(),
    ensures
        final(out)@ == old(out)@ + v@.skip(start as int),
{
    let mut i: usize = start;
    while i < v.len()
        invariant
            start <= i <= v@.len(),
            out@ == old(out)@ + v@.subrange(start as int, i as int),
        decreases v@.len() - i,
    {
        push_char(out, v[i]);
        proof {
            assert(v@.subrange(start as int, i + 1) =~= v@.subrange(start as int, i as int).push(
                v@[i as int],
            ));
            assert((old(out)@ + v@.subrange(start as int, i as int)).push(v@[i as int]) =~= old(
                out,
            )@ + v@.subrange(start as int, i + 1));
        }
        i = i + 1;
    }
    proof {
        assert(v@.subrange(start as int, v@.len() as int) =~= v@.skip(start as int));
    }
}

/// The characters of `v` as a fresh string.
pub(crate) fn string_of_chars(v: &Vec<char>) -> (r: String)
    ensures
        r@ == v@,
{
    let mut r = String::new();
    push_chars(&mut r, v, 0);
    proof {
        assert(Seq::<char>::empty() + v@.skip(0) =~= v@);
    }
    r
}

/// Splits `v` into its words: maximal runs of non-whitespace characters.
pub(crate) fn split_words(v: &Vec<char>) -> (ws: Vec<Vec<char>>)
    ensures
        seqs_of(ws@) == words(v@),
{
    let n = v.len();
    let mut ws: Vec<Vec<char>> = Vec::new();
    let mut cur: Vec<char> = Vec::new();
    let mut i: usize = 0;
    proof {
        assert(cur@ =~= Seq::<char>::empty());
        assert(v@.skip(0) =~= v@);
        assert(seqs_of(ws@) =~= Seq::<Seq<char>>::empty());
        assert(seqs_of(ws@) + split_ws_acc(v@.skip(0), cur@) =~= words(v@));
    }
    while i < n
        invariant
            i <= n,
            n == v@.len(),
            seqs_of(ws@) + split_ws_acc(v@.skip(i as int), cur@) == words(v@),
        decreases n - i,
    {
        let ghost old_ws = ws@;
        let ghost old_cur = cur@;
        let c = v[i];
        proof {
            assert(v@.skip(i as int)[0] == v@[i as int]);
            assert(v@.skip(i as int).drop_first() =~= v@.skip(i + 1));
        }
        if is_whitespace_char(c) {
            if cur.len() > 0 {
                ws.push(cur);
                cur = Vec::new();
                proof {
                    assert(split_ws_acc(v@.skip(i as int), old_cur) == seq![old_cur]
                        + split_ws_acc(v@.skip(i + 1), Seq::empty()));
                    assert(cur@ =~= Seq::<char>::empty());
                    assert(seqs_of(ws@) =~= seqs_of(old_ws) + seq![old_cur]);
                    assert((seqs_of(old_ws) + seq![old_cur]) + split_ws_acc(
                        v@.skip(i + 1),
                        Seq::empty(),
                    ) =~= seqs_of(old_ws) + (seq![old_cur] + split_ws_acc(
                        v@.skip(i + 1),
                        Seq::empty(),
                    )));
                }
            } else {
                proof {
                    assert(old_cur =~= Seq::<char>::empty());
                    assert(split_ws_acc(v@.skip(i as int), old_cur) == split_ws_acc(
                        v@.skip(i + 1),
                        Seq::empty(),
                    ));
                }
            }
        } else {
            cur.push(c);
            proof {
                assert(split_ws_acc(v@.skip(i as int), old_cur) == split_ws_acc(
                    v@.skip(i + 1),
                    old_cur.push(v@[i as int]),
                ));
            }
        }
        i = i + 1;
    }
    proof {
        assert(v@.skip(n as int) =~= Seq::<char>::empty());
    }
    if cur.len() > 0 {
        let ghost old_ws = ws@;
        let ghost old_cur = cur@;
        ws.push(cur);
        proof {
            assert(split_ws_acc(Seq::empty(), old_cur) == seq![old_cur]);
            assert(seqs_of(ws@) =~= seqs_of(old_ws) + seq![old_cur]);
        }
    } else {
        proof {
            assert(split_ws_acc(Seq::<char>::empty(), cur@) =~= Seq::<Seq<char>>::empty());
            assert(seqs_of(ws@) + Seq::<Seq<char>>::empty() =~= seqs_of(ws@));
        }
    }
    ws
}

/// Joins the given words with single underscores.
pub(crate) fn snake_join_exec(ws: &Vec<Vec<char>>) -> (r: String)
    ensures
        r@ == join_under(seqs_of(ws@)),
{
    let ghost ts = seqs_of(ws@);
    let mut r = String::new();
    let mut k: usize = 0;
    proof {
        assert(ts.take(0) =~= Seq::<Seq<char>>::empty());
    }
    while k < ws.len()
        invariant
            k <= ws@.len(),
            ts == seqs_of(ws@),
            r@ == join_under(ts.take(k as int)),
        decreases ws@.len() - k,
    {
        let ghost old_r = r@;
        if k > 0 {
            push_char(&mut r, '_');
        }
        push_chars(&mut r, &ws[k], 0);
        proof {
            assert(ws@[k as int]@ == ts[k as int]);
            assert(ws@[k as int]@.skip(0) =~= ts[k as int]);
            assert(ts.take(k + 1).drop_last() =~= ts.take(k as int));
            assert(ts.take(k + 1).last() == ts[k as int]);
            if k == 0 {
                assert(r@ =~= ts[0]);
                assert(join_under(ts.take(1)) == ts.take(1)[0]);
                assert(ts.take(1)[0] == ts[0]);
            } else {
                assert(join_under(ts.take(k + 1)) == join_under(ts.take(k as int)) + seq!['_']
                    + ts[k as int]);
                assert(r@ =~= (old_r + seq!['_']) + ts[k as int]);
                assert((join_under(ts.take(k as int)) + seq!['_']) + ts[k as int] =~= join_under(
                    ts.take(k as int),
                ) + seq!['_'] + ts[k as int]);
            }
        }
        k = k + 1;
    }
    proof {
        assert(ts.take(ws@.len() as int) =~= ts);
    }
    r
}

/// Appends `w` to `out` with its first character uppercased and the rest
/// untouched.
pub(crate) fn upper_first_push(out: &mut String, w: &Vec<char>)
    requires
        w@.len() >= 1,
    ensures
        final(out)@ == old(out)@ + upper_first(w@),
{
    let mut head = String::new();
    push_char(&mut head, w[0]);
    proof {
        assert(head@ =~= w@.take(1));
    }
    let up = to_uppercase_str(head.as_str());
    let ghost mid = out@;
    out.append(up.as_str());
    push_chars(out, w, 1);
    proof {
        assert((mid + upper_of(w@.take(1))) + w@.skip(1) =~= mid + (upper_of(w@.take(1)) + w@.skip(
            1,
        )));
    }
}

/// Concatenates the given words, uppercasing the first character of each.
pub(crate) fn pascal_join_exec(ws: &Vec<Vec<char>>) -> (r: String)
    requires
        forall|k: int| 0 <= k < ws@.len() ==> (#[trigger] ws@[k])@.len() > 0,
    ensures
        r@ == pascal_join(seqs_of(ws@)),
{
    let ghost ts = seqs_of(ws@);
    let mut r = String::new();
    let mut k: usize = 0;
    proof {
        assert(ts.take(0) =~= Seq::<Seq<char>>::empty());
    }
    while k < ws.len()
        invariant
            k <= ws@.len(),
            ts == seqs_of(ws@),
            forall|j: int| 0 <= j < ws@.len() ==> (#[trigger] ws@[j])@.len() > 0,
            r@ == pascal_join(ts.take(k as int)),
        decreases ws@.len() - k,
    {
        upper_first_push(&mut r, &ws[k]);
        proof {
            assert(ws@[k as int]@ == ts[k as int]);
            assert(ts.take(k + 1).drop_last() =~= ts.take(k as int));
            assert(ts.take(k + 1).last() == ts[k as int]);
        }
        k = k + 1;
    }
    proof {
        assert(ts.take(ws@.len() as int) =~= ts);
    }
    r
}

/// Concatenates the given words: the first lowercased in full, each later
/// one with its first character uppercased.
pub(crate) fn camel_join_exec(ws: &Vec<Vec<char>>) -> (r: String)
    requires
        forall|k: int| 0 <= k < ws@.len() ==> (#[trigger] ws@[k])@.len() > 0,
    ensures
        r@ == camel_join(seqs_of(ws@)),
{
    let ghost ts = seqs_of(ws@);
    let mut r = String::new();
    let mut k: usize = 0;
    proof {
        assert(ts.take(0) =~= Seq::<Seq<char>>::empty());
    }
    while k < ws.len()
        invariant
            k <= ws@.len(),
            ts == seqs_of(ws@),
            forall|j: int| 0 <= j < ws@.len() ==> (#[trigger] ws@[j])@.len() > 0,
            r@ == camel_join(ts.take(k as int)),
        decreases ws@.len() - k,
    {
        proof {
            assert(ws@[k as int]@ == ts[k as int]);
            assert(ts.take(k + 1).drop_last() =~= ts.take(k as int));
            assert(ts.take(k + 1).last() == ts[k as int]);
        }
        if k == 0 {
            let w0 = string_of_chars(&ws[0]);
            let low = to_lowercase_str(w0.as_str());
            r.append(low.as_str());
            proof {
                assert(r@ =~= lower_of(ts[0]));
                assert(join_under(ts.take(1)) == ts.take(1)[0]);
                assert(camel_join(ts.take(1)) == lower_of(ts.take(1)[0]));
                assert(ts.take(1)[0] == ts[0]);
            }
        } else {
            upper_first_push(&mut r, &ws[k]);
        }
        k = k + 1;
    }
    proof {
        assert(ts.take(ws@.len() as int) =~= ts);
    }
    r
}

} // verus!
