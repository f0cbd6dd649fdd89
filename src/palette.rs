use crate::raster::{Raster, Rgb};
use vstd::prelude::*;

verus! {

/// Packs a color into 24 bits, red highest: the order of keys is the
/// lexicographic order of (r, g, b).
pub open spec fn color_key(c: Rgb) -> u32 {
    (c.r as int * 65536 + c.g as int * 256 + c.b as int) as u32
}

pub open spec fn key_color(k: u32) -> Rgb {
    Rgb { r: (k / 65536) as u8, g: ((k / 256) % 256) as u8, b: (k % 256) as u8 }
}

pub open spec fn sorted(s: Seq<u32>) -> bool {
    forall|i: int, j: int| 0 <= i < j < s.len() ==> s[i] <= s[j]
}

/// Keys strictly increase along the palette: it is sorted and holds each color once.
pub open spec fn strictly_sorted(p: Seq<Rgb>) -> bool {
    forall|i: int, j: int| 0 <= i < j < p.len() ==> color_key(p[i]) < color_key(p[j])
}

proof fn lemma_key_round_trip(c: Rgb)
    ensures
        key_color(color_key(c)) == c,
        color_key(c) < 0x100_0000,
{
    let r = c.r as u32;
    let g = c.g as u32;
    let b = c.b as u32;
    assert(r * 65536 + g * 256 + b < 0x100_0000 && (r * 65536 + g * 256 + b) / 65536 == r && ((r
        * 65536 + g * 256 + b) / 256) % 256 == g && (r * 65536 + g * 256 + b) % 256 == b)
        by (bit_vector)
        requires
            r < 256,
            g < 256,
            b < 256,
    ;
}

proof fn lemma_color_round_trip(k: u32)
    requires
        k < 0x100_0000,
    ensures
        color_key(key_color(k)) == k,
{
    assert(k / 65536 < 256 && (k / 256) % 256 < 256 && k % 256 < 256 && (k / 65536) * 65536 + ((k
        / 256) % 256) * 256 + k % 256 == k) by (bit_vector)
        requires
            k < 0x100_0000,
    ;
}

fn key_of(c: Rgb) -> (k: u32)
    ensures
        k == color_key(c),
{
    proof {
        lemma_key_round_trip(c);
    }
    (c.r as u32) * 65536 + (c.g as u32) * 256 + (c.b as u32)
}

fn color_of(k: u32) -> (c: Rgb)
    ensures
        c == key_color(k),
{
    Rgb { r: (k / 65536) as u8, g: ((k / 256) % 256) as u8, b: (k % 256) as u8 }
}

/// Relies on std's `slice::sort`: the keys end up in ascending order and
/// none is added or lost.
#[verifier::external_body]
fn sort_keys(v: &mut Vec<u32>)
    ensures
        final(v)@.to_multiset() == old(v)@.to_multiset(),
        sorted(final(v)@),
{
    v.sort();
}

/// `p` is the palette of `target`: its pixels in scan order, or, when
/// `uniform`, its distinct colors each once in ascending key order.
pub open spec fn palette_of(target: &Raster, uniform: bool, p: Seq<Rgb>) -> bool {
    &&& !uniform ==> p == target.pixels@
    &&& uniform ==> strictly_sorted(p)
    &&& uniform ==> forall|c: Rgb| p.contains(c) <==> target.pixels@.contains(c)
}

/// The palette of `target`: one color per pixel in scan order, or, when
/// `uniform`, each distinct color once, in ascending (r, g, b) order.
pub fn build_palette(target: &Raster, uniform: bool) -> (p: Vec<Rgb>)
    ensures
        !uniform ==> p@ == target.pixels@,
        uniform ==> strictly_sorted(p@),
        uniform ==> forall|c: Rgb| p@.contains(c) <==> target.pixels@.contains(c),
        palette_of(target, uniform, p@),
{
    if !uniform {
        return target.pixels.clone();
    }
    let px = &target.pixels;
    let mut keys: Vec<u32> = Vec::new();
    let mut i: usize = 0;
    while i < px.len()
        invariant
            i <= px@.len(),
            keys@.len() == i,
            forall|j: int| 0 <= j < i ==> keys@[j] == color_key(#[trigger] px@[j]),
        decreases px@.len() - i,
    {
        keys.push(key_of(px[i]));
        i = i + 1;
    }
    let ghost unsorted = keys@;
    sort_keys(&mut keys);
    proof {
        broadcast use vstd::seq_lib::group_to_multiset_ensures;
        assert forall|k: u32| keys@.contains(k) <==> unsorted.contains(k) by {
            assert(keys@.to_multiset().count(k) == unsorted.to_multiset().count(k));
        }
        assert forall|m: int| 0 <= m < keys@.len() implies #[trigger] keys@[m] < 0x100_0000 by {
            assert(keys@.contains(keys@[m]));
            assert(unsorted.contains(keys@[m]));
            let q = choose|q: int| 0 <= q < unsorted.len() && unsorted[q] == keys@[m];
            lemma_key_round_trip(px@[q]);
        }
    }
    let mut out: Vec<Rgb> = Vec::new();
    let mut last: u32 = 0;
    let mut j: usize = 0;
    while j < keys.len()
        invariant
            j <= keys@.len(),
            sorted(keys@),
            strictly_sorted(out@),
            out@.len() > 0 ==> j > 0 && color_key(out@.last()) == last && last == keys@[j - 1],
            j > 0 ==> out@.len() > 0,
            forall|m: int| 0 <= m < j ==> out@.contains(#[trigger] key_color(keys@[m])),
            forall|c: Rgb|
                out@.contains(c) ==> exists|m: int|
                    0 <= m < j && c == #[trigger] key_color(keys@[m]),
            forall|m: int| 0 <= m < keys@.len() ==> #[trigger] keys@[m] < 0x100_0000,
        decreases keys@.len() - j,
    {
        let k = keys[j];
        let ghost before = out@;
        proof {
            lemma_color_round_trip(k);
        }
        if out.len() == 0 || k != last {
            let c = color_of(k);
            out.push(c);
            proof {
                if before.len() > 0 {
                    assert(last <= k);
                }
                assert forall|a: int, b: int| 0 <= a < b < out@.len() implies color_key(out@[a])
                    < color_key(out@[b]) by {
                    if b == out@.len() - 1 && before.len() > 0 {
                        assert(color_key(before[a]) <= color_key(before.last()));
                    }
                }
                assert forall|m: int| 0 <= m < j + 1 implies out@.contains(
                    #[trigger] key_color(keys@[m]),
                ) by {
                    if m < j {
                        let q = choose|q: int|
                            0 <= q < before.len() && before[q] == key_color(keys@[m]);
                        assert(out@[q] == before[q]);
                    } else {
                        assert(out@[out@.len() - 1] == c);
                    }
                }
                assert forall|c2: Rgb| out@.contains(c2) implies exists|m: int|
                    0 <= m < j + 1 && c2 == #[trigger] key_color(keys@[m]) by {
                    let q = choose|q: int| 0 <= q < out@.len() && out@[q] == c2;
                    if q < before.len() {
                        assert(before.contains(c2));
                    } else {
                        assert(c2 == key_color(keys@[j as int]));
                    }
                }
            }
            last = k;
        } else {
            proof {
                lemma_key_round_trip(out@.last());
                assert(key_color(keys@[j as int]) == out@[out@.len() - 1]);
                assert forall|m: int| 0 <= m < j + 1 implies out@.contains(
                    #[trigger] key_color(keys@[m]),
                ) by {
                    if m == j {
                        assert(out@[out@.len() - 1] == key_color(keys@[m]));
                    }
                }
                assert forall|c2: Rgb| out@.contains(c2) implies exists|m: int|
                    0 <= m < j + 1 && c2 == #[trigger] key_color(keys@[m]) by {
                    assert(exists|m: int| 0 <= m < j && c2 == #[trigger] key_color(keys@[m]));
                }
            }
        }
        j = j + 1;
    }
    proof {
        assert forall|c: Rgb| out@.contains(c) <==> target.pixels@.contains(c) by {
            if out@.contains(c) {
                let m = choose|m: int| 0 <= m < keys@.len() && c == #[trigger] key_color(keys@[m]);
                assert(keys@.contains(keys@[m]));
                assert(unsorted.contains(keys@[m]));
                let q = choose|q: int| 0 <= q < unsorted.len() && unsorted[q] == keys@[m];
                lemma_key_round_trip(px@[q]);
                assert(target.pixels@[q] == c);
            }
            if target.pixels@.contains(c) {
                let q = choose|q: int| 0 <= q < px@.len() && px@[q] == c;
                assert(unsorted[q] == color_key(c));
                assert(unsorted.contains(color_key(c)));
                assert(keys@.contains(color_key(c)));
                let m = choose|m: int| 0 <= m < keys@.len() && keys@[m] == color_key(c);
                lemma_key_round_trip(c);
                assert(out@.contains(key_color(keys@[m])));
            }
        }
    }
    out
}

} // verus!
