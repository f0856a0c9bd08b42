use crate::intersperse_iter::IntersperseIterAdapter;
use vstd::prelude::*;
use vstd::string::*;

verus! {

/// `parts` concatenated, with `sep` between each two of them.
pub open spec fn joined(parts: Seq<Seq<char>>, sep: Seq<char>) -> Seq<char>
    decreases parts.len(),
{
    if parts.len() == 0 {
        Seq::empty()
    } else if parts.len() == 1 {
        parts[0]
    } else {
        joined(parts.drop_last(), sep) + sep + parts.last()
    }
}

/// The characters of each string slice of `parts`.
pub open spec fn texts(parts: Seq<&str>) -> Seq<Seq<char>> {
    parts.map_values(|s: &str| s@)
}

/// Concatenates `parts` with `sep` between each two of them, by interspersing
/// `sep` and appending what comes out.
fn join_with<'a>(parts: &Vec<&'a str>, sep: &'a str) -> (r: String)
    ensures
        r@ == joined(texts(parts@), sep@),
{
    let mut copy: Vec<&'a str> = Vec::new();
    let mut i: usize = 0;
    while i < parts.len()
        invariant
            i <= parts@.len(),
            copy@ == parts@.take(i as int),
        decreases parts@.len() - i,
    {
        copy.push(parts[i]);
        i += 1;
        assert(copy@ =~= parts@.take(i as int));
    }
    assert(copy@ =~= parts@);
    let out = copy.intersperse(sep).collect();
    let ghost p = texts(parts@);
    let mut s = String::new();
    let mut m: usize = 0;
    while m < out.len()
        invariant
            m <= out@.len(),
            out@.len() == (if parts@.len() == 0 { 0 } else { 2 * parts@.len() - 1 }),
            forall|i: int|
                0 <= i < out@.len() ==> if i % 2 == 0 {
                    #[trigger] out@[i] == parts@[i / 2]
                } else {
                    cloned(sep, out@[i])
                },
            p == texts(parts@),
            m == 0 ==> s@ == Seq::<char>::empty(),
            m > 0 && m % 2 == 1 ==> s@ == joined(p.take((m as int + 1) / 2), sep@),
            m > 0 && m % 2 == 0 ==> s@ == joined(p.take(m as int / 2), sep@) + sep@,
        decreases out@.len() - m,
    {
        let piece = out[m];
        proof {
            let k = m as int / 2;
            if m % 2 == 0 {
                assert(piece == parts@[k]);
                assert(p.take(k + 1).drop_last() =~= p.take(k));
                assert(p.take(k + 1).last() == piece@);
                if m == 0 {
                    assert(p.take(1)[0] == piece@);
                }
            } else {
                assert(cloned(sep, piece));
                assert(piece@ == sep@);
            }
        }
        s.append(piece);
        m += 1;
    }
    proof {
        let n = parts@.len() as int;
        if n > 0 {
            assert(p.take(n) =~= p);
        }
    }
    s
}

/// Joins string slices into lines.
pub trait Unlines {
    /// The characters of each slice, in order.
    spec fn lines(&self) -> Seq<Seq<char>>;

    /// The slices with a line feed between each two of them (none at the end).
    fn unlines(&self) -> (r: String)
        ensures
            r@ == joined(self.lines(), seq!['\n']),
    ;
}

impl<'a> Unlines for Vec<&'a str> {
    open spec fn lines(&self) -> Seq<Seq<char>> {
        texts(self@)
    }

    fn unlines(&self) -> (r: String) {
        let sep = "\n";
        proof {
            reveal_strlit("\n");
            assert(sep@ =~= seq!['\n']);
        }
        join_with(self, sep)
    }
}

/// Joins string slices into words.
pub trait Unwords {
    /// The characters of each slice, in order.
    spec fn words(&self) -> Seq<Seq<char>>;

    /// The slices with a space between each two of them.
    fn unwords(&self) -> (r: String)
        ensures
            r@ == joined(self.words(), seq![' ']),
    ;
}

impl<'a> Unwords for Vec<&'a str> {
    open spec fn words(&self) -> Seq<Seq<char>> {
        texts(self@)
    }

    fn unwords(&self) -> (r: String) {
        let sep = " ";
        proof {
            reveal_strlit(" ");
            assert(sep@ =~= seq![' ']);
        }
        join_with(self, sep)
    }
}

} // verus!
