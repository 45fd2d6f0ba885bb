use vstd::prelude::*;

verus! {

/// The position of the first `<` at or after `i`, and the length of the
/// name if there is none.
pub open spec fn first_open(s: Seq<u8>, i: int) -> int
    decreases s.len() - i,
{
    if i >= s.len() {
        s.len() as int
    } else if s[i] == 0x3c {
        i
    } else {
        first_open(s, i + 1)
    }
}

/// The end of the part of the name between `lo` and `hi` once every `>`
/// at its end is taken off.
pub open spec fn trimmed_end(s: Seq<u8>, lo: int, hi: int) -> int
    decreases hi - lo,
{
    if hi > lo && s[hi - 1] == 0x3e {
        trimmed_end(s, lo, hi - 1)
    } else {
        hi
    }
}

/// Where the last path segment of the part of the name up to `hi`
/// starts.  The part is read from `i` on, left to right, with the segment
/// at hand starting at `start`; each `::` starts a new segment after it.
pub open spec fn last_segment_start(s: Seq<u8>, hi: int, i: int, start: int) -> int
    decreases hi - i,
{
    if i + 1 >= hi {
        start
    } else if s[i] == 0x3a && s[i + 1] == 0x3a {
        last_segment_start(s, hi, i + 2, i + 2)
    } else {
        last_segment_start(s, hi, i + 1, start)
    }
}

/// The last path segment of the part of the name between `lo` and `hi`:
/// what follows the last `::`, and the whole part if there is none.
pub open spec fn last_segment(s: Seq<u8>, lo: int, hi: int) -> Seq<u8> {
    s.subrange(last_segment_start(s, hi, lo, lo), hi)
}

/// The generic arguments of the name up to `hi`, each by its last path
/// segment, with `, ` between them.  The arguments are read from `i` on,
/// left to right, with the argument at hand starting at `start`; each
/// `, ` ends an argument.
pub open spec fn simplified_generics(s: Seq<u8>, hi: int, i: int, start: int) -> Seq<u8>
    decreases hi - i,
{
    if i + 1 >= hi {
        last_segment(s, start, hi)
    } else if s[i] == 0x2c && s[i + 1] == 0x20 {
        last_segment(s, start, i) + seq![0x2cu8, 0x20u8] + simplified_generics(
            s,
            hi,
            i + 2,
            i + 2,
        )
    } else {
        simplified_generics(s, hi, i + 1, start)
    }
}

/// The name of a type without the paths of the modules: the last path
/// segment of the type and, if it has generic arguments, the last path
/// segment of each of them between `<` and `>`.
pub open spec fn simplified_type_name(s: Seq<u8>) -> Seq<u8> {
    let open = first_open(s, 0);
    if open < s.len() {
        last_segment(s, 0, open) + seq![0x3cu8] + simplified_generics(
            s,
            trimmed_end(s, open + 1, s.len() as int),
            open + 1,
            open + 1,
        ) + seq![0x3eu8]
    } else {
        last_segment(s, 0, s.len() as int)
    }
}

/// Appends the last path segment of the part of the name between `lo`
/// and `hi`.
fn push_last_segment(s: &[u8], lo: usize, hi: usize, out: &mut Vec<u8>)
    requires
        lo <= hi <= s@.len(),
    ensures
        final(out)@ == old(out)@ + last_segment(s@, lo as int, hi as int),
{
    let mut start = lo;
    let mut i = lo;
    while hi - i > 1
        invariant
            lo <= start <= i <= hi <= s@.len(),
            last_segment_start(s@, hi as int, i as int, start as int) == last_segment_start(
                s@,
                hi as int,
                lo as int,
                lo as int,
            ),
        decreases hi - i,
    {
        if s[i] == 0x3a && s[i + 1] == 0x3a {
            i = i + 2;
            start = i;
        } else {
            i = i + 1;
        }
    }
    let ghost before = out@;
    let mut k = start;
    while k < hi
        invariant
            start <= k <= hi <= s@.len(),
            out@ == before + s@.subrange(start as int, k as int),
        decreases hi - k,
    {
        out.push(s[k]);
        assert(s@.subrange(start as int, k as int + 1) =~= s@.subrange(start as int, k as int).push(
            s@[k as int],
        ));
        k += 1;
    }
}

/// The name of a type without the paths of the modules, from the bytes
/// of its full name.
pub fn simplify_type_name(full_name: &[u8]) -> (name: Vec<u8>)
    ensures
        name@ == simplified_type_name(full_name@),
{
    let len = full_name.len();
    let mut open: usize = 0;
    while open < len && full_name[open] != 0x3c
        invariant
            open <= len,
            len == full_name@.len(),
            first_open(full_name@, open as int) == first_open(full_name@, 0),
        decreases len - open,
    {
        open += 1;
    }
    let mut name: Vec<u8> = Vec::new();
    if open == len {
        push_last_segment(full_name, 0, len, &mut name);
        return name;
    }
    push_last_segment(full_name, 0, open, &mut name);
    name.push(0x3c);
    let mut hi = len;
    while hi > open + 1 && full_name[hi - 1] == 0x3e
        invariant
            open + 1 <= hi <= len,
            len == full_name@.len(),
            trimmed_end(full_name@, open + 1, hi as int) == trimmed_end(
                full_name@,
                open + 1,
                len as int,
            ),
        decreases hi - open,
    {
        hi -= 1;
    }
    let ghost head = name@;
    let ghost generics = simplified_generics(full_name@, hi as int, open + 1, open + 1);
    let mut start = open + 1;
    let mut i = open + 1;
    while hi - i > 1
        invariant
            open + 1 <= start <= i <= hi <= len,
            len == full_name@.len(),
            head + generics == name@ + simplified_generics(
                full_name@,
                hi as int,
                i as int,
                start as int,
            ),
        decreases hi - i,
    {
        if full_name[i] == 0x2c && full_name[i + 1] == 0x20 {
            let ghost before = name@;
            push_last_segment(full_name, start, i, &mut name);
            name.push(0x2c);
            name.push(0x20);
            proof {
                let piece = last_segment(full_name@, start as int, i as int);
                let rest = simplified_generics(full_name@, hi as int, i + 2, i + 2);
                assert(name@ =~= before + piece + seq![0x2cu8, 0x20u8]);
                assert(before + (piece + seq![0x2cu8, 0x20u8] + rest) =~= before + piece
                    + seq![0x2cu8, 0x20u8] + rest);
            }
            i = i + 2;
            start = i;
        } else {
            i = i + 1;
        }
    }
    let ghost before = name@;
    push_last_segment(full_name, start, hi, &mut name);
    name.push(0x3e);
    proof {
        let piece = last_segment(full_name@, start as int, hi as int);
        assert(before + piece == head + generics);
        assert(name@ =~= head + generics + seq![0x3eu8]);
    }
    name
}

} // verus!
