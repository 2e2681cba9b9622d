//! Splitting and joining of sequences, and field lookup in comma-separated
//! attribute lists such as those of SCRAM messages.

use vstd::prelude::*;
use crate::text::starts_with_spec;

verus! {

/// `s` split at each occurrence of `sep`: one more piece than separators,
/// pieces possibly empty, as `split` on slices and strings gives.
pub open spec fn split_seq<A>(s: Seq<A>, sep: A) -> Seq<Seq<A>>
    decreases s.len(),
{
    if s.len() == 0 {
        seq![seq![]]
    } else {
        let p = split_seq(s.drop_last(), sep);
        if s.last() == sep {
            p.push(seq![])
        } else {
            p.update(p.len() - 1, p.last().push(s.last()))
        }
    }
}

pub proof fn lemma_split_nonempty<A>(s: Seq<A>, sep: A)
    ensures
        split_seq(s, sep).len() >= 1,
    decreases s.len(),
{
    if s.len() > 0 {
        lemma_split_nonempty(s.drop_last(), sep);
    }
}

/// The pieces of a vector of vectors, as sequences.
pub open spec fn pieces_view<A>(v: Seq<Vec<A>>) -> Seq<Seq<A>> {
    v.map_values(|x: Vec<A>| x@)
}

/// Splits bytes at each occurrence of `sep`.
pub fn split_bytes(s: &[u8], sep: u8) -> (r: Vec<Vec<u8>>)
    ensures
        pieces_view(r@) == split_seq(s@, sep),
{
    let mut done: Vec<Vec<u8>> = Vec::new();
    let mut cur: Vec<u8> = Vec::new();
    let mut i: usize = 0;
    while i < s.len()
        invariant
            i <= s.len(),
            pieces_view(done@).push(cur@) == split_seq(s@.subrange(0, i as int), sep),
        decreases s.len() - i,
    {
        let ghost pre = pieces_view(done@).push(cur@);
        assert(s@.subrange(0, i + 1).drop_last() =~= s@.subrange(0, i as int));
        assert(s@.subrange(0, i + 1).last() == s@[i as int]);
        if s[i] == sep {
            let piece = cur;
            done.push(piece);
            cur = Vec::new();
            assert(pieces_view(done@).push(cur@) =~= pre.push(seq![]));
        } else {
            cur.push(s[i]);
            assert(pieces_view(done@).push(cur@) =~= pre.update(pre.len() - 1, pre.last().push(s@[i as int])));
        }
        i = i + 1;
    }
    assert(s@.subrange(0, s.len() as int) =~= s@);
    done.push(cur);
    done
}

/// Splits characters at each occurrence of `sep`.
pub fn split_chars(s: &[char], sep: char) -> (r: Vec<Vec<char>>)
    ensures
        pieces_view(r@) == split_seq(s@, sep),
{
    let mut done: Vec<Vec<char>> = Vec::new();
    let mut cur: Vec<char> = Vec::new();
    let mut i: usize = 0;
    while i < s.len()
        invariant
            i <= s.len(),
            pieces_view(done@).push(cur@) == split_seq(s@.subrange(0, i as int), sep),
        decreases s.len() - i,
    {
        let ghost pre = pieces_view(done@).push(cur@);
        assert(s@.subrange(0, i + 1).drop_last() =~= s@.subrange(0, i as int));
        assert(s@.subrange(0, i + 1).last() == s@[i as int]);
        if s[i] == sep {
            let piece = cur;
            done.push(piece);
            cur = Vec::new();
            assert(pieces_view(done@).push(cur@) =~= pre.push(seq![]));
        } else {
            cur.push(s[i]);
            assert(pieces_view(done@).push(cur@) =~= pre.update(pre.len() - 1, pre.last().push(s@[i as int])));
        }
        i = i + 1;
    }
    assert(s@.subrange(0, s.len() as int) =~= s@);
    done.push(cur);
    done
}

/// The rest of the first field from `i` on that starts with `prefix`.
pub open spec fn field_value_from(fields: Seq<Seq<char>>, prefix: Seq<char>, i: int) -> Option<Seq<char>>
    decreases fields.len() - i,
{
    if 0 <= i < fields.len() {
        if starts_with_spec(fields[i], prefix) {
            Some(fields[i].subrange(prefix.len() as int, fields[i].len() as int))
        } else {
            field_value_from(fields, prefix, i + 1)
        }
    } else {
        None
    }
}

/// The rest of the first field that starts with `prefix`.
pub open spec fn field_value(fields: Seq<Seq<char>>, prefix: Seq<char>) -> Option<Seq<char>> {
    field_value_from(fields, prefix, 0)
}

fn suffix_chars(s: &[char], k: usize) -> (r: Vec<char>)
    requires
        k <= s.len(),
    ensures
        r@ == s@.subrange(k as int, s.len() as int),
{
    let mut r: Vec<char> = Vec::new();
    let mut i: usize = k;
    while i < s.len()
        invariant
            k <= i <= s.len(),
            r@ == s@.subrange(k as int, i as int),
        decreases s.len() - i,
    {
        r.push(s[i]);
        assert(s@.subrange(k as int, i + 1) =~= s@.subrange(k as int, i as int).push(s@[i as int]));
        i = i + 1;
    }
    r
}

/// The rest of the first field that starts with `prefix`.
pub fn find_field(fields: &Vec<Vec<char>>, prefix: &[char]) -> (r: Option<Vec<char>>)
    ensures
        match field_value(pieces_view(fields@), prefix@) {
            Some(v) => r matches Some(x) && x@ == v,
            None => r is None,
        },
{
    let ghost fs = pieces_view(fields@);
    let mut i: usize = 0;
    while i < fields.len()
        invariant
            i <= fields.len(),
            fs == pieces_view(fields@),
            field_value(fs, prefix@) == field_value_from(fs, prefix@, i as int),
        decreases fields.len() - i,
    {
        assert(fs[i as int] == fields@[i as int]@);
        if crate::text::chars_start_with(fields[i].as_slice(), prefix) {
            return Some(suffix_chars(fields[i].as_slice(), prefix.len()));
        }
        i = i + 1;
    }
    None
}

/// The fields that do not start with `prefix`, in order.
pub open spec fn fields_without(fs: Seq<Seq<char>>, prefix: Seq<char>) -> Seq<Seq<char>>
    decreases fs.len(),
{
    if fs.len() == 0 {
        seq![]
    } else {
        let k = fields_without(fs.drop_last(), prefix);
        if starts_with_spec(fs.last(), prefix) {
            k
        } else {
            k.push(fs.last())
        }
    }
}

/// The fields joined with commas.
pub open spec fn join_comma(fs: Seq<Seq<char>>) -> Seq<char>
    decreases fs.len(),
{
    if fs.len() == 0 {
        seq![]
    } else if fs.len() == 1 {
        fs[0]
    } else {
        join_comma(fs.drop_last()) + seq![','] + fs.last()
    }
}

/// The fields that do not start with `prefix`, joined with commas.
pub fn join_fields_without(fields: &Vec<Vec<char>>, prefix: &[char]) -> (r: Vec<char>)
    ensures
        r@ == join_comma(fields_without(pieces_view(fields@), prefix@)),
{
    let ghost fs = pieces_view(fields@);
    let mut out: Vec<char> = Vec::new();
    let mut kept: usize = 0;
    let mut i: usize = 0;
    while i < fields.len()
        invariant
            i <= fields.len(),
            fs == pieces_view(fields@),
            kept == fields_without(fs.subrange(0, i as int), prefix@).len(),
            kept <= i,
            out@ == join_comma(fields_without(fs.subrange(0, i as int), prefix@)),
        decreases fields.len() - i,
    {
        let ghost pre = fields_without(fs.subrange(0, i as int), prefix@);
        assert(fs.subrange(0, i + 1).drop_last() =~= fs.subrange(0, i as int));
        assert(fs.subrange(0, i + 1).last() == fields@[i as int]@);
        if !crate::text::chars_start_with(fields[i].as_slice(), prefix) {
            let f = &fields[i];
            if kept > 0 {
                out.push(',');
            }
            let mut j: usize = 0;
            let ghost base = out@;
            while j < f.len()
                invariant
                    j <= f.len(),
                    out@ == base + f@.subrange(0, j as int),
                decreases f.len() - j,
            {
                out.push(f[j]);
                assert(f@.subrange(0, j + 1) =~= f@.subrange(0, j as int).push(f@[j as int]));
                j = j + 1;
            }
            assert(f@.subrange(0, f.len() as int) =~= f@);
            let ghost now = pre.push(f@);
            assert(now.drop_last() =~= pre);
            if kept == 0 {
                assert(out@ =~= now[0]);
            } else {
                assert(out@ =~= join_comma(pre) + seq![','] + f@);
            }
            kept = kept + 1;
        }
        i = i + 1;
    }
    assert(fs.subrange(0, fields.len() as int) =~= fs);
    out
}

/// `s` without its `-` characters.
pub open spec fn remove_dashes(s: Seq<char>) -> Seq<char>
    decreases s.len(),
{
    if s.len() == 0 {
        seq![]
    } else if s.last() == '-' {
        remove_dashes(s.drop_last())
    } else {
        remove_dashes(s.drop_last()).push(s.last())
    }
}

/// The characters of `s` without its `-` characters.
pub fn without_dashes(s: &[char]) -> (r: Vec<char>)
    ensures
        r@ == remove_dashes(s@),
{
    let mut r: Vec<char> = Vec::new();
    let mut i: usize = 0;
    while i < s.len()
        invariant
            i <= s.len(),
            r@ == remove_dashes(s@.subrange(0, i as int)),
        decreases s.len() - i,
    {
        assert(s@.subrange(0, i + 1).drop_last() =~= s@.subrange(0, i as int));
        if s[i] != '-' {
            r.push(s[i]);
        }
        i = i + 1;
    }
    assert(s@.subrange(0, s.len() as int) =~= s@);
    r
}

} // verus!
