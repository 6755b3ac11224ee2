//! Shader sources of the rounded-corner programs: every fragment shader
//! marks where the shared corner-mask code goes.
use vstd::prelude::*;

verus! {

/// `text` with every occurrence of `from`, taken left to right without
/// overlap, replaced by `to`.
pub open spec fn replaced(text: Seq<char>, from: Seq<char>, to: Seq<char>) -> Seq<char>
    decreases text.len(),
{
    if text.len() == 0 || from.len() == 0 {
        text
    } else if from.is_prefix_of(text) {
        to + replaced(text.skip(from.len() as int), from, to)
    } else {
        seq![text[0]] + replaced(text.skip(1), from, to)
    }
}

/// Whether `from` occurs in `text` at character `i`.
fn occurs_at(text: &str, from: &str, i: usize) -> (r: bool)
    requires
        i <= text@.len(),
    ensures
        r == from@.is_prefix_of(text@.skip(i as int)),
{
    let n = text.unicode_len();
    let m = from.unicode_len();
    if m > n - i {
        return false;
    }
    let mut k: usize = 0;
    while k < m
        invariant
            n == text@.len(),
            m == from@.len(),
            i + m <= n,
            k <= m,
            forall|j: int| 0 <= j < k ==> from@[j] == #[trigger] text@[i + j],
        decreases m - k,
    {
        if text.get_char(i + k) != from.get_char(k) {
            assert(from@[k as int] != text@.skip(i as int)[k as int]);
            return false;
        }
        k = k + 1;
    }
    assert forall|j: int| 0 <= j < m implies #[trigger] text@.skip(i as int).subrange(0, m as int)[j] == from@[j] by {
        assert(text@.skip(i as int).subrange(0, m as int)[j] == text@[i + j]);
    }
    assert(from@ =~= text@.skip(i as int).subrange(0, m as int));
    true
}

/// The text with every occurrence of a non-empty `from`, taken left to
/// right without overlap, replaced by `to` (what `str::replace` does).
fn replace_all(text: &str, from: &str, to: &str) -> (r: String)
    requires
        from@.len() > 0,
    ensures
        r@ == replaced(text@, from@, to@),
{
    let n = text.unicode_len();
    let m = from.unicode_len();
    let mut out = String::new();
    let mut i: usize = 0;
    proof {
        assert(text@.skip(0) =~= text@);
        assert(out@ + replaced(text@, from@, to@) =~= replaced(text@, from@, to@));
    }
    while i < n
        invariant
            n == text@.len(),
            m == from@.len(),
            m > 0,
            i <= n,
            out@ + replaced(text@.skip(i as int), from@, to@) == replaced(text@, from@, to@),
        decreases n - i,
    {
        let ghost rest = text@.skip(i as int);
        let ghost before = out@;
        if occurs_at(text, from, i) {
            out.append(to);
            proof {
                assert(rest.skip(m as int) =~= text@.skip(i + m));
                assert(replaced(rest, from@, to@) == to@ + replaced(rest.skip(m as int), from@, to@));
                assert(before + (to@ + replaced(text@.skip(i + m), from@, to@)) =~= (before + to@) + replaced(
                    text@.skip(i + m),
                    from@,
                    to@,
                ));
            }
            i = i + m;
        } else {
            let one = text.substring_char(i, i + 1);
            out.append(one);
            proof {
                assert(rest.skip(1) =~= text@.skip(i + 1));
                assert(one@ =~= seq![rest[0]]);
                assert(replaced(rest, from@, to@) == seq![rest[0]] + replaced(rest.skip(1), from@, to@));
                assert(before + (one@ + replaced(text@.skip(i + 1), from@, to@)) =~= (before + one@) + replaced(
                    text@.skip(i + 1),
                    from@,
                    to@,
                ));
            }
            i = i + 1;
        }
    }
    proof {
        assert(text@.skip(n as int) =~= Seq::<char>::empty());
        assert(out@ + Seq::<char>::empty() =~= out@);
    }
    out
}

/// The marker a fragment shader leaves for the corner-mask code.
pub open spec fn corners_marker() -> Seq<char> {
    "//_CORNERS"@
}

/// A fragment shader's full source: `mask`, the shared corner-mask code,
/// stands wherever the shader has the marker.
pub fn source(shader: &str, mask: &str) -> (r: String)
    ensures
        r@ == replaced(shader@, corners_marker(), mask@),
{
    let marker = "//_CORNERS";
    proof {
        reveal_strlit("//_CORNERS");
    }
    replace_all(shader, marker, mask)
}

} // verus!
