use vstd::prelude::*;

use crate::fields::{split_fields, split_on, strings_view};
use crate::trim::{trim, trimmed};

verus! {

/// The character that separates the genres stored in one genre cell.
pub const GENRE_SEPARATOR: char = ';';

/// The fields, trimmed, with those that trim to nothing left out.
pub open spec fn nonempty_trimmed(fields: Seq<Seq<char>>) -> Seq<Seq<char>>
    decreases fields.len(),
{
    if fields.len() == 0 {
        Seq::<Seq<char>>::empty()
    } else {
        let rest = nonempty_trimmed(fields.drop_last());
        let t = trim(fields.last());
        if t.len() > 0 {
            rest.push(t)
        } else {
            rest
        }
    }
}

/// The genres named in one genre cell: its `;`-separated parts, trimmed,
/// with empty parts left out, in the order they appear.
pub open spec fn cell_genres(cell: Seq<char>) -> Seq<Seq<char>> {
    nonempty_trimmed(split_on(cell, GENRE_SEPARATOR))
}

/// Every genre named in any of the cells.
pub open spec fn genre_set(cells: Seq<Seq<char>>) -> Set<Seq<char>>
    decreases cells.len(),
{
    if cells.len() == 0 {
        Set::<Seq<char>>::empty()
    } else {
        genre_set(cells.drop_last()).union(cell_genres(cells.last()).to_set())
    }
}

/// The genres named in one genre cell, in the order they appear.
pub fn genres_of_cell(cell: &str) -> (genres: Vec<String>)
    ensures
        strings_view(genres@) == cell_genres(cell@),
        forall|j: int|
            0 <= j < split_on(cell@, GENRE_SEPARATOR).len() && trim(
                #[trigger] split_on(cell@, GENRE_SEPARATOR)[j],
            ).len() > 0 ==> strings_view(genres@).contains(
                trim(split_on(cell@, GENRE_SEPARATOR)[j]),
            ),
        forall|g: Seq<char>|
            #[trigger] strings_view(genres@).contains(g) ==> g.len() > 0 && exists|j: int|
                0 <= j < split_on(cell@, GENRE_SEPARATOR).len() && g == trim(
                    #[trigger] split_on(cell@, GENRE_SEPARATOR)[j],
                ),
{
    let parts = split_fields(cell, GENRE_SEPARATOR);
    let ghost pv = strings_view(parts@);
    let mut genres: Vec<String> = Vec::new();
    let mut i: usize = 0;
    assert(pv.take(0) =~= Seq::<Seq<char>>::empty());
    while i < parts.len()
        invariant
            pv == strings_view(parts@),
            pv == split_on(cell@, GENRE_SEPARATOR),
            i <= parts.len(),
            strings_view(genres@) == nonempty_trimmed(pv.take(i as int)),
        decreases parts.len() - i,
    {
        let t = trimmed(parts[i].as_str());
        let ghost before = strings_view(genres@);
        assert(pv.take(i + 1).drop_last() =~= pv.take(i as int));
        assert(pv.take(i + 1).last() == parts@[i as int]@);
        if !t.is_empty() {
            genres.push(t.to_owned());
            assert(strings_view(genres@) =~= before.push(t@));
        } else {
            assert(strings_view(genres@) =~= before);
        }
        i = i + 1;
    }
    assert(pv.take(parts.len() as int) =~= pv);
    proof {
        assert forall|g: Seq<char>| #[trigger] strings_view(genres@).contains(g) implies g.len()
            > 0 && exists|j: int|
            0 <= j < split_on(cell@, GENRE_SEPARATOR).len() && g == trim(
                #[trigger] split_on(cell@, GENRE_SEPARATOR)[j],
            ) by {
            lemma_cell_genres_exact(cell@, g);
        }
        assert forall|j: int|
            0 <= j < split_on(cell@, GENRE_SEPARATOR).len() && trim(
                #[trigger] split_on(cell@, GENRE_SEPARATOR)[j],
            ).len() > 0 implies strings_view(genres@).contains(
            trim(split_on(cell@, GENRE_SEPARATOR)[j]),
        ) by {
            lemma_cell_genres_exact(cell@, trim(split_on(cell@, GENRE_SEPARATOR)[j]));
        }
    }
    genres
}

/// What a sequence holds after a push.
proof fn lemma_push_contains<A>(s: Seq<A>, a: A)
    ensures
        forall|x: A| #[trigger] s.push(a).contains(x) <==> s.contains(x) || x == a,
{
    assert forall|x: A| #[trigger] s.push(a).contains(x) implies s.contains(x) || x == a by {
        let k = choose|k: int| 0 <= k < s.len() + 1 && #[trigger] s.push(a)[k] == x;
        if k < s.len() {
            assert(s[k] == x);
        }
    }
    assert forall|x: A| s.contains(x) || x == a implies #[trigger] s.push(a).contains(x) by {
        if s.contains(x) {
            let k = choose|k: int| 0 <= k < s.len() && #[trigger] s[k] == x;
            assert(s.push(a)[k] == x);
        } else {
            assert(s.push(a)[s.len() as int] == x);
        }
    }
}

/// Whether `list` holds a string equal to `item`.
fn holds_string(list: &Vec<String>, item: &String) -> (found: bool)
    ensures
        found == strings_view(list@).contains(item@),
{
    let mut k: usize = 0;
    while k < list.len()
        invariant
            k <= list.len(),
            forall|m: int| 0 <= m < k ==> list@[m]@ != item@,
        decreases list.len() - k,
    {
        if list[k] == *item {
            assert(strings_view(list@)[k as int] == item@);
            return true;
        }
        k = k + 1;
    }
    assert forall|m: int| 0 <= m < strings_view(list@).len() implies strings_view(list@)[m]
        != item@ by {
        assert(strings_view(list@)[m] == list@[m]@);
    }
    false
}

/// Every genre named in the genre cells, each once: the cells' `;`-separated
/// parts, trimmed, with empty parts left out.
pub fn collect_genres(cells: &Vec<String>) -> (genres: Vec<String>)
    ensures
        strings_view(genres@).to_set() == genre_set(strings_view(cells@)),
        strings_view(genres@).no_duplicates(),
        forall|g: Seq<char>|
            #[trigger] strings_view(genres@).contains(g) <==> g.len() > 0 && exists|i: int, j: int|
                0 <= i < cells.len() && 0 <= j < split_on(cells@[i]@, GENRE_SEPARATOR).len() && g
                    == trim(#[trigger] split_on(cells@[i]@, GENRE_SEPARATOR)[j]),
{
    let ghost cv = strings_view(cells@);
    let mut genres: Vec<String> = Vec::new();
    let mut i: usize = 0;
    assert(strings_view(genres@).to_set() =~= genre_set(cv.take(0)));
    while i < cells.len()
        invariant
            cv == strings_view(cells@),
            i <= cells.len(),
            strings_view(genres@).to_set() == genre_set(cv.take(i as int)),
            strings_view(genres@).no_duplicates(),
        decreases cells.len() - i,
    {
        let found = genres_of_cell(cells[i].as_str());
        let ghost fv = strings_view(found@);
        let ghost base = genre_set(cv.take(i as int));
        let mut j: usize = 0;
        while j < found.len()
            invariant
                fv == strings_view(found@),
                j <= found.len(),
                strings_view(genres@).to_set() == base.union(fv.take(j as int).to_set()),
                strings_view(genres@).no_duplicates(),
            decreases found.len() - j,
        {
            let ghost before = strings_view(genres@);
            let g = &found[j];
            assert(fv.take(j + 1) =~= fv.take(j as int).push(g@));
            proof {
                lemma_push_contains(fv.take(j as int), g@);
                lemma_push_contains(before, g@);
            }
            if !holds_string(&genres, g) {
                genres.push(g.clone());
                assert(strings_view(genres@) =~= before.push(g@));
                assert forall|x: Seq<char>| #[trigger] strings_view(genres@).to_set().contains(x)
                    <==> base.union(fv.take(j + 1).to_set()).contains(x) by {
                    assert(strings_view(genres@).contains(x) <==> before.contains(x) || x == g@);
                    assert(fv.take(j + 1).contains(x) <==> fv.take(j as int).contains(x) || x
                        == g@);
                    assert(before.contains(x) <==> before.to_set().contains(x));
                }
                assert(strings_view(genres@).to_set() =~= base.union(fv.take(j + 1).to_set()));
            } else {
                assert(strings_view(genres@).to_set() =~= base.union(fv.take(j + 1).to_set()));
            }
            j = j + 1;
        }
        assert(fv.take(found.len() as int) =~= fv);
        assert(cv.take(i + 1).drop_last() =~= cv.take(i as int));
        assert(cv.take(i + 1).last() == cells@[i as int]@);
        i = i + 1;
    }
    assert(cv.take(cells.len() as int) =~= cv);
    proof {
        assert forall|g: Seq<char>| #[trigger] strings_view(genres@).contains(g) <==> g.len() > 0
            && exists|i: int, j: int|
            0 <= i < cells.len() && 0 <= j < split_on(cells@[i]@, GENRE_SEPARATOR).len() && g
                == trim(#[trigger] split_on(cells@[i]@, GENRE_SEPARATOR)[j]) by {
            lemma_genre_set_exact(cv, g);
            assert(strings_view(genres@).contains(g) <==> strings_view(genres@).to_set().contains(
                g,
            ));
            if g.len() > 0 && exists|i: int, j: int|
                0 <= i < cells.len() && 0 <= j < split_on(cells@[i]@, GENRE_SEPARATOR).len() && g
                    == trim(#[trigger] split_on(cells@[i]@, GENRE_SEPARATOR)[j]) {
                let (i, j) = choose|i: int, j: int|
                    0 <= i < cells.len() && 0 <= j < split_on(cells@[i]@, GENRE_SEPARATOR).len()
                        && g == trim(#[trigger] split_on(cells@[i]@, GENRE_SEPARATOR)[j]);
                assert(cv[i] == cells@[i]@);
            }
            if strings_view(genres@).contains(g) {
                let (i, j) = choose|i: int, j: int|
                    0 <= i < cv.len() && 0 <= j < split_on(cv[i], GENRE_SEPARATOR).len() && g
                        == trim(#[trigger] split_on(cv[i], GENRE_SEPARATOR)[j]);
                assert(cv[i] == cells@[i]@);
            }
        }
    }
    genres
}

/// Every genre that `nonempty_trimmed` keeps is the trimmed form of one of
/// the fields, and is not empty.
proof fn lemma_nonempty_trimmed_members(fields: Seq<Seq<char>>, g: Seq<char>)
    requires
        nonempty_trimmed(fields).contains(g),
    ensures
        g.len() > 0,
        exists|i: int| 0 <= i < fields.len() && g == trim(#[trigger] fields[i]),
    decreases fields.len(),
{
    let rest = nonempty_trimmed(fields.drop_last());
    let t = trim(fields.last());
    if t.len() > 0 && g == t {
        assert(g == trim(fields[fields.len() - 1]));
    } else {
        if t.len() > 0 {
            let k = choose|k: int| 0 <= k < rest.push(t).len() && #[trigger] rest.push(t)[k] == g;
            assert(rest[k] == g);
        }
        assert(rest.contains(g));
        lemma_nonempty_trimmed_members(fields.drop_last(), g);
        let i = choose|i: int| 0 <= i < fields.drop_last().len() && g == trim(
            #[trigger] fields.drop_last()[i],
        );
        assert(fields[i] == fields.drop_last()[i]);
    }
}

/// Law: a genre is one of those named in some cell exactly when it is in
/// the genre set of the cells.
pub proof fn lemma_genre_set_members(cells: Seq<Seq<char>>, g: Seq<char>)
    ensures
        genre_set(cells).contains(g) <==> exists|i: int|
            0 <= i < cells.len() && #[trigger] cell_genres(cells[i]).contains(g),
    decreases cells.len(),
{
    if cells.len() > 0 {
        let p = cells.drop_last();
        lemma_genre_set_members(p, g);
        if genre_set(cells).contains(g) {
            if !genre_set(p).contains(g) {
                assert(cell_genres(cells[cells.len() - 1]).contains(g));
            } else {
                let i = choose|i: int| 0 <= i < p.len() && #[trigger] cell_genres(p[i]).contains(g);
                assert(cells[i] == p[i]);
            }
        }
        if exists|i: int| 0 <= i < cells.len() && #[trigger] cell_genres(cells[i]).contains(g) {
            let i = choose|i: int| 0 <= i < cells.len() && #[trigger] cell_genres(cells[i]).contains(
                g,
            );
            if i < p.len() {
                assert(p[i] == cells[i]);
            } else {
                assert(cell_genres(cells.last()).to_set().contains(g));
            }
        }
    }
}

/// Law: the genres of two lists of cells read together are those of each
/// list; the order in which rows come and how they are split up do not
/// matter.
pub proof fn lemma_genre_set_concat(a: Seq<Seq<char>>, b: Seq<Seq<char>>)
    ensures
        genre_set(a + b) == genre_set(a).union(genre_set(b)),
{
    assert forall|g: Seq<char>| #[trigger] genre_set(a + b).contains(g) <==> genre_set(
        a,
    ).union(genre_set(b)).contains(g) by {
        lemma_genre_set_members(a + b, g);
        lemma_genre_set_members(a, g);
        lemma_genre_set_members(b, g);
        if genre_set(a + b).contains(g) {
            let i = choose|i: int|
                0 <= i < (a + b).len() && #[trigger] cell_genres((a + b)[i]).contains(g);
            if i < a.len() {
                assert((a + b)[i] == a[i]);
            } else {
                assert((a + b)[i] == b[i - a.len()]);
            }
        }
        if genre_set(a).contains(g) {
            let i = choose|i: int| 0 <= i < a.len() && #[trigger] cell_genres(a[i]).contains(g);
            assert((a + b)[i] == a[i]);
        }
        if genre_set(b).contains(g) {
            let i = choose|i: int| 0 <= i < b.len() && #[trigger] cell_genres(b[i]).contains(g);
            assert((a + b)[a.len() + i] == b[i]);
        }
    }
    assert(genre_set(a + b) =~= genre_set(a).union(genre_set(b)));
}

/// Law: every genre of a cell is non-empty, has no white space at either
/// end and holds no separator.
pub proof fn lemma_cell_genre_form(cell: Seq<char>, g: Seq<char>)
    requires
        cell_genres(cell).contains(g),
    ensures
        g.len() > 0,
        trim(g) == g,
        !g.contains(GENRE_SEPARATOR),
{
    let fields = split_on(cell, GENRE_SEPARATOR);
    lemma_nonempty_trimmed_members(fields, g);
    let i = choose|i: int| 0 <= i < fields.len() && g == trim(#[trigger] fields[i]);
    crate::trim::lemma_trim_idempotent(fields[i]);
    crate::fields::lemma_split_fields_lack_sep(cell, GENRE_SEPARATOR);
    crate::trim::lemma_trim_contains(fields[i], GENRE_SEPARATOR);
}

/// Law: a genre that was read from the cells, stored as a cell of its own
/// and read again, names that genre and nothing else.
pub proof fn lemma_genre_reread(cells: Seq<Seq<char>>, g: Seq<char>)
    requires
        genre_set(cells).contains(g),
    ensures
        cell_genres(g) == seq![g],
{
    lemma_genre_set_members(cells, g);
    let i = choose|i: int| 0 <= i < cells.len() && #[trigger] cell_genres(cells[i]).contains(g);
    lemma_cell_genre_form(cells[i], g);
    crate::fields::lemma_split_without_sep(g, GENRE_SEPARATOR);
    let f = seq![g];
    assert(f.drop_last() =~= Seq::<Seq<char>>::empty());
    assert(f.last() == g);
    assert(split_on(g, GENRE_SEPARATOR) == f);
    assert(nonempty_trimmed(f.drop_last()) == Seq::<Seq<char>>::empty());
    assert(nonempty_trimmed(f) == Seq::<Seq<char>>::empty().push(g));
    assert(cell_genres(g) =~= seq![g]);
}

/// A non-empty trimmed field is kept by `nonempty_trimmed`.
proof fn lemma_nonempty_trimmed_complete(fields: Seq<Seq<char>>, j: int)
    requires
        0 <= j < fields.len(),
        trim(fields[j]).len() > 0,
    ensures
        nonempty_trimmed(fields).contains(trim(fields[j])),
    decreases fields.len(),
{
    let rest = nonempty_trimmed(fields.drop_last());
    let t = trim(fields.last());
    if j == fields.len() - 1 {
        assert(rest.push(t)[rest.len() as int] == t);
    } else {
        assert(fields.drop_last()[j] == fields[j]);
        lemma_nonempty_trimmed_complete(fields.drop_last(), j);
        let k = choose|k: int| 0 <= k < rest.len() && #[trigger] rest[k] == trim(fields[j]);
        if t.len() > 0 {
            assert(rest.push(t)[k] == rest[k]);
        }
    }
}

/// Law: the genres of a cell are exactly the non-empty trimmed forms of its
/// `;`-separated fields; none is left out and nothing else is added.
pub proof fn lemma_cell_genres_exact(cell: Seq<char>, g: Seq<char>)
    ensures
        cell_genres(cell).contains(g) <==> g.len() > 0 && exists|j: int|
            0 <= j < split_on(cell, GENRE_SEPARATOR).len() && g == trim(
                #[trigger] split_on(cell, GENRE_SEPARATOR)[j],
            ),
{
    let fields = split_on(cell, GENRE_SEPARATOR);
    if cell_genres(cell).contains(g) {
        lemma_nonempty_trimmed_members(fields, g);
    }
    if g.len() > 0 && exists|j: int| 0 <= j < fields.len() && g == trim(#[trigger] fields[j]) {
        let j = choose|j: int| 0 <= j < fields.len() && g == trim(#[trigger] fields[j]);
        lemma_nonempty_trimmed_complete(fields, j);
    }
}

/// Law: a genre is in the genre set of the cells exactly when it is the
/// non-empty trimmed form of a `;`-separated field of one of the cells.
pub proof fn lemma_genre_set_exact(cells: Seq<Seq<char>>, g: Seq<char>)
    ensures
        genre_set(cells).contains(g) <==> g.len() > 0 && exists|i: int, j: int|
            0 <= i < cells.len() && 0 <= j < split_on(cells[i], GENRE_SEPARATOR).len() && g
                == trim(#[trigger] split_on(cells[i], GENRE_SEPARATOR)[j]),
{
    lemma_genre_set_members(cells, g);
    if genre_set(cells).contains(g) {
        let i = choose|i: int| 0 <= i < cells.len() && #[trigger] cell_genres(cells[i]).contains(g);
        lemma_cell_genres_exact(cells[i], g);
        let j = choose|j: int|
            0 <= j < split_on(cells[i], GENRE_SEPARATOR).len() && g == trim(
                #[trigger] split_on(cells[i], GENRE_SEPARATOR)[j],
            );
        assert(0 <= i < cells.len() && 0 <= j < split_on(cells[i], GENRE_SEPARATOR).len() && g
            == trim(split_on(cells[i], GENRE_SEPARATOR)[j]));
    }
    if g.len() > 0 && exists|i: int, j: int|
        0 <= i < cells.len() && 0 <= j < split_on(cells[i], GENRE_SEPARATOR).len() && g == trim(
            #[trigger] split_on(cells[i], GENRE_SEPARATOR)[j],
        ) {
        let (i, j) = choose|i: int, j: int|
            0 <= i < cells.len() && 0 <= j < split_on(cells[i], GENRE_SEPARATOR).len() && g
                == trim(#[trigger] split_on(cells[i], GENRE_SEPARATOR)[j]);
        lemma_cell_genres_exact(cells[i], g);
        assert(cell_genres(cells[i]).contains(g));
    }
}

} // verus!
