use vstd::prelude::*;
use vstd::string::StrSliceExecFns;

verus! {

/// The fields of `s` between occurrences of `sep`, left to right.
///
/// Like `str::split` with a `char` pattern: there is always at least one
/// field, an empty text has one empty field, and two adjacent separators
/// enclose an empty field.
pub open spec fn split_on(s: Seq<char>, sep: char) -> Seq<Seq<char>>
    decreases s.len(),
{
    if s.len() == 0 {
        seq![Seq::<char>::empty()]
    } else {
        let fields = split_on(s.drop_last(), sep);
        if s.last() == sep {
            fields.push(Seq::<char>::empty())
        } else {
            fields.update(fields.len() - 1, fields.last().push(s.last()))
        }
    }
}

/// The fields put back together with `sep` between neighbours.
pub open spec fn join_with(fields: Seq<Seq<char>>, sep: char) -> Seq<char>
    decreases fields.len(),
{
    if fields.len() == 0 {
        Seq::<char>::empty()
    } else if fields.len() == 1 {
        fields[0]
    } else {
        join_with(fields.drop_last(), sep).push(sep) + fields.last()
    }
}

/// The views of a sequence of strings.
pub open spec fn strings_view(v: Seq<String>) -> Seq<Seq<char>> {
    v.map_values(|x: String| x@)
}

/// Splitting never yields an empty list of fields.
pub proof fn lemma_split_nonempty(s: Seq<char>, sep: char)
    ensures
        split_on(s, sep).len() >= 1,
    decreases s.len(),
{
    if s.len() > 0 {
        lemma_split_nonempty(s.drop_last(), sep);
    }
}

/// Law: joining the fields of a split with the same separator gives back the
/// text that was split; nothing is lost or added.
pub proof fn lemma_join_split(s: Seq<char>, sep: char)
    ensures
        join_with(split_on(s, sep), sep) == s,
    decreases s.len(),
{
    if s.len() == 0 {
        assert(join_with(split_on(s, sep), sep) =~= s);
    } else {
        let p = s.drop_last();
        let r = split_on(p, sep);
        lemma_split_nonempty(p, sep);
        lemma_join_split(p, sep);
        if s.last() == sep {
            let f = r.push(Seq::<char>::empty());
            assert(f.drop_last() =~= r);
            assert(join_with(f, sep) =~= s);
        } else {
            let f = r.update(r.len() - 1, r.last().push(s.last()));
            if r.len() == 1 {
                assert(join_with(r, sep) == r[0]);
                assert(f[0] == r[0].push(s.last()));
                assert(s =~= p.push(s.last()));
                assert(join_with(f, sep) == f[0]);
            } else {
                assert(f.drop_last() =~= r.drop_last());
                let a = join_with(r.drop_last(), sep).push(sep);
                assert(join_with(r, sep) == a + r.last());
                assert(f.last() == r.last().push(s.last()));
                assert(join_with(f, sep) == a + f.last());
                assert(a + r.last().push(s.last()) =~= (a + r.last()).push(s.last()));
                assert(s =~= p.push(s.last()));
            }
        }
    }
}

/// Law: no field of a split holds the separator.
pub proof fn lemma_split_fields_lack_sep(s: Seq<char>, sep: char)
    ensures
        forall|i: int| 0 <= i < split_on(s, sep).len() ==> !(#[trigger] split_on(s, sep)[i]).contains(sep),
    decreases s.len(),
{
    if s.len() > 0 {
        let p = s.drop_last();
        lemma_split_nonempty(p, sep);
        lemma_split_fields_lack_sep(p, sep);
        let r = split_on(p, sep);
        if s.last() != sep {
            let f = r.update(r.len() - 1, r.last().push(s.last()));
            assert forall|i: int| 0 <= i < f.len() implies !(#[trigger] f[i]).contains(sep) by {
                if i == r.len() - 1 {
                    if f[i].contains(sep) {
                        let k = choose|k: int| 0 <= k < f[i].len() && f[i][k] == sep;
                        assert(r.last().contains(sep) || k == r.last().len());
                        assert(r[r.len() - 1] == r.last());
                    }
                } else {
                    assert(f[i] == r[i]);
                }
            }
        } else {
            let f = r.push(Seq::<char>::empty());
            assert forall|i: int| 0 <= i < f.len() implies !(#[trigger] f[i]).contains(sep) by {
                if i < r.len() {
                    assert(f[i] == r[i]);
                }
            }
        }
    }
}

/// Law: a text without the separator splits into exactly itself.
pub proof fn lemma_split_without_sep(s: Seq<char>, sep: char)
    requires
        !s.contains(sep),
    ensures
        split_on(s, sep) == seq![s],
    decreases s.len(),
{
    if s.len() == 0 {
        assert(s =~= Seq::<char>::empty());
        assert(split_on(s, sep) =~= seq![s]);
    } else {
        let p = s.drop_last();
        assert(!p.contains(sep)) by {
            if p.contains(sep) {
                let k = choose|k: int| 0 <= k < p.len() && p[k] == sep;
                assert(s[k] == sep);
            }
        }
        lemma_split_without_sep(p, sep);
        assert(s[s.len() - 1] != sep);
        assert(s =~= p.push(s.last()));
        assert(split_on(s, sep) =~= seq![s]);
    }
}

/// Splits `s` at every `sep`, as `s.split(sep)` does, and returns the fields
/// as owned strings.
pub fn split_fields(s: &str, sep: char) -> (fields: Vec<String>)
    ensures
        strings_view(fields@) == split_on(s@, sep),
        join_with(strings_view(fields@), sep) == s@,
        forall|i: int| 0 <= i < fields.len() ==> !(#[trigger] fields@[i])@.contains(sep),
{
    let n: usize = s.unicode_len();
    let mut fields: Vec<String> = Vec::new();
    let mut start: usize = 0;
    let mut i: usize = 0;
    assert(s@.take(0) =~= Seq::<char>::empty());
    assert(strings_view(fields@).push(s@.subrange(0, 0)) =~= split_on(s@.take(0), sep));
    while i < n
        invariant
            n == s@.len(),
            start <= i <= n,
            strings_view(fields@).push(s@.subrange(start as int, i as int)) == split_on(
                s@.take(i as int),
                sep,
            ),
        decreases n - i,
    {
        let c = s.get_char(i);
        let ghost before = strings_view(fields@);
        let ghost cur = s@.subrange(start as int, i as int);
        assert(s@.take(i + 1).drop_last() =~= s@.take(i as int));
        assert(s@.take(i + 1).last() == c);
        proof {
            lemma_split_nonempty(s@.take(i as int), sep);
        }
        if c == sep {
            let field = s.substring_char(start, i).to_owned();
            fields.push(field);
            start = i + 1;
            assert(strings_view(fields@) =~= before.push(cur));
            assert(s@.subrange(start as int, i + 1) =~= Seq::<char>::empty());
            assert(strings_view(fields@).push(s@.subrange(start as int, i + 1)) =~= before.push(
                cur,
            ).push(Seq::<char>::empty()));
        } else {
            assert(strings_view(fields@) =~= before);
            assert(s@.subrange(start as int, i + 1) =~= cur.push(c));
            assert(before.push(cur).update(before.len() as int, cur.push(c)) =~= before.push(
                cur.push(c),
            ));
        }
        i = i + 1;
    }
    let last = s.substring_char(start, n).to_owned();
    let ghost before = strings_view(fields@);
    fields.push(last);
    assert(s@.take(n as int) =~= s@);
    assert(strings_view(fields@) =~= before.push(s@.subrange(start as int, n as int)));
    proof {
        lemma_join_split(s@, sep);
        lemma_split_fields_lack_sep(s@, sep);
        assert forall|i: int| 0 <= i < fields.len() implies !(#[trigger] fields@[i])@.contains(
            sep,
        ) by {
            assert(strings_view(fields@)[i] == fields@[i]@);
        }
    }
    fields
}

} // verus!
