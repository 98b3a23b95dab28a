//! Splitting an encoded record into its `$`-separated fields.

use vstd::prelude::*;

verus! {

/// Whether the text contains the field delimiter `$`.
pub open spec fn contains_dollar(s: Seq<char>) -> bool {
    exists|i: int| 0 <= i < s.len() && s[i] == '$'
}

/// Splitting on `$`, carrying the field read so far and the fields already
/// complete.
pub open spec fn split_rec(s: Seq<char>, cur: Seq<char>, acc: Seq<Seq<char>>) -> Seq<Seq<char>>
    decreases s.len(),
{
    if s.len() == 0 {
        acc.push(cur)
    } else if s[0] == '$' {
        split_rec(s.drop_first(), Seq::empty(), acc.push(cur))
    } else {
        split_rec(s.drop_first(), cur.push(s[0]), acc)
    }
}

/// The `$`-separated fields of `s`, in order. Every string has at least one
/// field; each `$` ends one and begins the next.
pub open spec fn split_dollar(s: Seq<char>) -> Seq<Seq<char>> {
    split_rec(s, Seq::empty(), Seq::empty())
}

/// Fields already complete pass through the split unchanged.
proof fn lemma_split_rec_acc(s: Seq<char>, cur: Seq<char>, acc: Seq<Seq<char>>)
    ensures
        split_rec(s, cur, acc) == acc + split_rec(s, cur, Seq::empty()),
    decreases s.len(),
{
    if s.len() == 0 {
        assert(acc.push(cur) =~= acc + Seq::<Seq<char>>::empty().push(cur));
    } else if s[0] == '$' {
        lemma_split_rec_acc(s.drop_first(), Seq::empty(), acc.push(cur));
        lemma_split_rec_acc(s.drop_first(), Seq::empty(), Seq::<Seq<char>>::empty().push(cur));
        let tail = split_rec(s.drop_first(), Seq::empty(), Seq::empty());
        assert(acc.push(cur) + tail =~= acc + (Seq::<Seq<char>>::empty().push(cur) + tail));
    } else {
        lemma_split_rec_acc(s.drop_first(), cur.push(s[0]), acc);
    }
}

/// Text without the delimiter is a single field.
pub proof fn lemma_split_no_dollar(s: Seq<char>, cur: Seq<char>)
    requires
        !contains_dollar(s),
    ensures
        split_rec(s, cur, Seq::empty()) == seq![cur + s],
    decreases s.len(),
{
    if s.len() == 0 {
        assert(Seq::<Seq<char>>::empty().push(cur) =~= seq![cur + s]);
    } else {
        assert(s[0] != '$');
        assert(!contains_dollar(s.drop_first())) by {
            if contains_dollar(s.drop_first()) {
                let i = choose|i: int| 0 <= i < s.drop_first().len() && s.drop_first()[i] == '$';
                assert(s[i + 1] == '$');
            }
        }
        lemma_split_no_dollar(s.drop_first(), cur.push(s[0]));
        assert(cur.push(s[0]) + s.drop_first() =~= cur + s);
    }
}

/// A delimiter cuts the text in two independent halves.
pub proof fn lemma_split_at_dollar(a: Seq<char>, b: Seq<char>, cur: Seq<char>)
    ensures
        split_rec(a + seq!['$'] + b, cur, Seq::empty()) == split_rec(a, cur, Seq::empty())
            + split_dollar(b),
    decreases a.len(),
{
    let s = a + seq!['$'] + b;
    if a.len() == 0 {
        assert(s[0] == '$');
        assert(s.drop_first() =~= b);
        lemma_split_rec_acc(b, Seq::empty(), Seq::<Seq<char>>::empty().push(cur));
        assert(split_rec(a, cur, Seq::empty()) =~= Seq::<Seq<char>>::empty().push(cur));
    } else if a[0] == '$' {
        assert(s[0] == '$');
        assert(s.drop_first() =~= a.drop_first() + seq!['$'] + b);
        lemma_split_at_dollar(a.drop_first(), b, Seq::empty());
        lemma_split_rec_acc(
            a.drop_first() + seq!['$'] + b,
            Seq::empty(),
            Seq::<Seq<char>>::empty().push(cur),
        );
        lemma_split_rec_acc(a.drop_first(), Seq::empty(), Seq::<Seq<char>>::empty().push(cur));
        let adf_split = split_rec(a.drop_first(), Seq::empty(), Seq::empty());
        assert((Seq::<Seq<char>>::empty().push(cur) + adf_split) + split_dollar(b)
            =~= Seq::<Seq<char>>::empty().push(cur) + (adf_split + split_dollar(b)));
    } else {
        assert(s[0] == a[0]);
        assert(s.drop_first() =~= a.drop_first() + seq!['$'] + b);
        lemma_split_at_dollar(a.drop_first(), b, cur.push(a[0]));
    }
}

/// An encoded record: three delimiter-free fields, a delimiter after each,
/// then the rest. The split returns the three fields, then the rest's own
/// fields.
pub proof fn lemma_split_record(alg: Seq<char>, iters: Seq<char>, salt: Seq<char>, rest: Seq<char>)
    requires
        !contains_dollar(alg),
        !contains_dollar(iters),
        !contains_dollar(salt),
    ensures
        split_dollar(alg + seq!['$'] + iters + seq!['$'] + salt + seq!['$'] + rest) == seq![
            alg,
            iters,
            salt,
        ] + split_dollar(rest),
{
    let s = alg + seq!['$'] + iters + seq!['$'] + salt + seq!['$'] + rest;
    let rest1 = iters + seq!['$'] + salt + seq!['$'] + rest;
    let rest2 = salt + seq!['$'] + rest;
    assert(s =~= alg + seq!['$'] + rest1);
    lemma_split_at_dollar(alg, rest1, Seq::empty());
    lemma_split_no_dollar(alg, Seq::empty());
    assert(Seq::<char>::empty() + alg =~= alg);
    assert(rest1 =~= iters + seq!['$'] + rest2);
    lemma_split_at_dollar(iters, rest2, Seq::empty());
    lemma_split_no_dollar(iters, Seq::empty());
    assert(Seq::<char>::empty() + iters =~= iters);
    lemma_split_at_dollar(salt, rest, Seq::empty());
    lemma_split_no_dollar(salt, Seq::empty());
    assert(Seq::<char>::empty() + salt =~= salt);
    assert(seq![alg] + (seq![iters] + (seq![salt] + split_dollar(rest))) =~= seq![
        alg,
        iters,
        salt,
    ] + split_dollar(rest));
}

/// A full record whose last field is also delimiter-free splits into exactly
/// the four fields.
pub proof fn lemma_split_four(alg: Seq<char>, iters: Seq<char>, salt: Seq<char>, digest: Seq<char>)
    requires
        !contains_dollar(alg),
        !contains_dollar(iters),
        !contains_dollar(salt),
        !contains_dollar(digest),
    ensures
        split_dollar(alg + seq!['$'] + iters + seq!['$'] + salt + seq!['$'] + digest) == seq![
            alg,
            iters,
            salt,
            digest,
        ],
{
    lemma_split_record(alg, iters, salt, digest);
    lemma_split_no_dollar(digest, Seq::empty());
    assert(Seq::<char>::empty() + digest =~= digest);
    assert(seq![alg, iters, salt] + seq![digest] =~= seq![alg, iters, salt, digest]);
}

/// Whether `s` contains the `$` delimiter.
pub fn has_dollar(s: &str) -> (r: bool)
    ensures
        r == contains_dollar(s@),
{
    let len = s.unicode_len();
    let mut i: usize = 0;
    while i < len
        invariant
            i <= len,
            len == s@.len(),
            forall|j: int| 0 <= j < i ==> s@[j] != '$',
        decreases len - i,
    {
        if s.get_char(i) == '$' {
            return true;
        }
        i += 1;
    }
    proof {
        assert(!contains_dollar(s@)) by {
            if contains_dollar(s@) {
                let j = choose|j: int| 0 <= j < s@.len() && s@[j] == '$';
            }
        }
    }
    false
}

/// Splits `s` on `$`. Every returned field is free of the delimiter.
pub fn split_fields(s: &str) -> (parts: Vec<String>)
    ensures
        parts.deep_view() == split_dollar(s@),
        forall|j: int|
            0 <= j < parts.deep_view().len() ==> !contains_dollar(
                #[trigger] parts.deep_view()[j],
            ),
{
    let len = s.unicode_len();
    let mut parts: Vec<String> = Vec::new();
    let mut start: usize = 0;
    let mut i: usize = 0;
    proof {
        assert(s@.skip(0) =~= s@);
        assert(s@.subrange(0, 0) =~= Seq::<char>::empty());
        assert(parts.deep_view() =~= Seq::<Seq<char>>::empty());
        assert(Seq::<Seq<char>>::empty() + split_rec(s@, Seq::empty(), Seq::empty()) =~= split_rec(
            s@,
            Seq::empty(),
            Seq::empty(),
        ));
    }
    while i < len
        invariant
            start <= i <= len,
            len == s@.len(),
            split_dollar(s@) == parts.deep_view() + split_rec(
                s@.skip(i as int),
                s@.subrange(start as int, i as int),
                Seq::empty(),
            ),
            !contains_dollar(s@.subrange(start as int, i as int)),
            forall|j: int|
                0 <= j < parts.deep_view().len() ==> !contains_dollar(
                    #[trigger] parts.deep_view()[j],
                ),
        decreases len - i,
    {
        let ghost cur = s@.subrange(start as int, i as int);
        let ghost pd = parts.deep_view();
        let c = s.get_char(i);
        if c == '$' {
            let piece = String::from_str(s.substring_char(start, i));
            parts.push(piece);
            proof {
                assert(parts.deep_view() =~= pd.push(cur));
                assert(s@.skip(i as int)[0] == '$');
                assert(s@.skip(i as int).drop_first() =~= s@.skip(i + 1));
                lemma_split_rec_acc(
                    s@.skip(i + 1),
                    Seq::empty(),
                    Seq::<Seq<char>>::empty().push(cur),
                );
                assert(s@.subrange(i + 1, i + 1) =~= Seq::<char>::empty());
                assert(pd + (Seq::<Seq<char>>::empty().push(cur) + split_rec(
                    s@.skip(i + 1),
                    Seq::empty(),
                    Seq::empty(),
                )) =~= pd.push(cur) + split_rec(s@.skip(i + 1), Seq::empty(), Seq::empty()));
            }
            start = i + 1;
        } else {
            proof {
                assert(s@.skip(i as int)[0] == s@[i as int]);
                assert(s@.skip(i as int).drop_first() =~= s@.skip(i + 1));
                assert(cur.push(s@[i as int]) =~= s@.subrange(start as int, i + 1));
                assert(!contains_dollar(s@.subrange(start as int, i + 1))) by {
                    if contains_dollar(s@.subrange(start as int, i + 1)) {
                        let ext = s@.subrange(start as int, i + 1);
                        let j = choose|j: int| 0 <= j < ext.len() && #[trigger] ext[j] == '$';
                        assert(cur[j] == '$' || j == i - start);
                    }
                }
            }
        }
        i += 1;
    }
    let ghost cur = s@.subrange(start as int, len as int);
    let ghost pd = parts.deep_view();
    let piece = String::from_str(s.substring_char(start, len));
    parts.push(piece);
    proof {
        assert(parts.deep_view() =~= pd.push(cur));
        assert(s@.skip(len as int) =~= Seq::<char>::empty());
        assert(split_rec(Seq::<char>::empty(), cur, Seq::empty()) =~= Seq::<Seq<
            char,
        >>::empty().push(cur));
        assert(pd + Seq::<Seq<char>>::empty().push(cur) =~= pd.push(cur));
    }
    parts
}

} // verus!
