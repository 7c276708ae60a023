use vstd::prelude::*;

verus! {

/// Whether `c` is white space: a character with the Unicode property
/// White_Space, as `char::is_whitespace` tells it.
pub open spec fn is_space_spec(c: char) -> bool {
    ||| 9 <= c as u32 <= 13
    ||| c as u32 == 0x20
    ||| c as u32 == 0x85
    ||| c as u32 == 0xa0
    ||| c as u32 == 0x1680
    ||| 0x2000 <= c as u32 <= 0x200a
    ||| c as u32 == 0x2028
    ||| c as u32 == 0x2029
    ||| c as u32 == 0x202f
    ||| c as u32 == 0x205f
    ||| c as u32 == 0x3000
}

/// The first place at or after `from` and before `end` that holds no white
/// space; `end` if there is none.
pub open spec fn after_spaces(s: Seq<char>, from: int, end: int) -> int
    decreases end - from,
{
    if from < end && is_space_spec(s[from]) {
        after_spaces(s, from + 1, end)
    } else {
        from
    }
}

/// The first place at or after `from` and before `end` that holds white
/// space; `end` if there is none.
pub open spec fn after_word(s: Seq<char>, from: int, end: int) -> int
    decreases end - from,
{
    if from < end && !is_space_spec(s[from]) {
        after_word(s, from + 1, end)
    } else {
        from
    }
}

/// The first place at or after `from` that holds a line feed; the length of
/// `s` if there is none.
pub open spec fn line_end(s: Seq<char>, from: int) -> int
    decreases s.len() - from,
{
    if 0 <= from < s.len() && s[from] != '\n' {
        line_end(s, from + 1)
    } else {
        from
    }
}

/// Where the second word of the line from `from` to `end` begins; `end` if
/// the line has no second word.
pub open spec fn second_word_start(s: Seq<char>, from: int, end: int) -> int {
    after_spaces(s, after_word(s, after_spaces(s, from, end), end), end)
}

/// The paths of the lines from `from` on that begin with `-`: the second
/// word of each such line that has one.
pub open spec fn paths_from(s: Seq<char>, from: int) -> Seq<Seq<char>>
    decreases s.len() - from,
{
    if from < 0 || from >= s.len() {
        Seq::empty()
    } else {
        let end = line_end(s, from);
        let start = second_word_start(s, from, end);
        let rest = if from <= end < s.len() {
            paths_from(s, end + 1)
        } else {
            Seq::empty()
        };
        if s[from] == '-' && start < end {
            seq![s.subrange(start, after_word(s, start, end))] + rest
        } else {
            rest
        }
    }
}

/// The paths that a report of `git submodule status` marks as not
/// initialised: of each line that begins with `-`, the second word.
pub open spec fn uninitialized_paths(report: Seq<char>) -> Seq<Seq<char>> {
    paths_from(report, 0)
}

pub fn is_space(c: char) -> (r: bool)
    ensures
        r == is_space_spec(c),
{
    let n: u32 = c as u32;
    (9 <= n && n <= 13) || n == 0x20 || n == 0x85 || n == 0xa0 || n == 0x1680 || (0x2000 <= n && n
        <= 0x200a) || n == 0x2028 || n == 0x2029 || n == 0x202f || n == 0x205f || n == 0x3000
}

fn skip_spaces(report: &[char], from: usize, end: usize) -> (r: usize)
    requires
        from <= end <= report@.len(),
    ensures
        r == after_spaces(report@, from as int, end as int),
        from <= r <= end,
{
    let mut k: usize = from;
    while k < end && is_space(report[k])
        invariant
            from <= k <= end <= report@.len(),
            after_spaces(report@, k as int, end as int) == after_spaces(
                report@,
                from as int,
                end as int,
            ),
        decreases end - k,
    {
        k += 1;
    }
    k
}

fn skip_word(report: &[char], from: usize, end: usize) -> (r: usize)
    requires
        from <= end <= report@.len(),
    ensures
        r == after_word(report@, from as int, end as int),
        from <= r <= end,
{
    let mut k: usize = from;
    while k < end && !is_space(report[k])
        invariant
            from <= k <= end <= report@.len(),
            after_word(report@, k as int, end as int) == after_word(
                report@,
                from as int,
                end as int,
            ),
        decreases end - k,
    {
        k += 1;
    }
    k
}

fn find_line_end(report: &[char], from: usize) -> (r: usize)
    requires
        from <= report@.len(),
    ensures
        r == line_end(report@, from as int),
        from <= r <= report@.len(),
{
    let n: usize = report.len();
    let mut k: usize = from;
    while k < n && report[k] != '\n'
        invariant
            n == report@.len(),
            from <= k <= n,
            line_end(report@, k as int) == line_end(report@, from as int),
        decreases n - k,
    {
        k += 1;
    }
    k
}

fn copy_range(report: &[char], from: usize, end: usize) -> (r: Vec<char>)
    requires
        from <= end <= report@.len(),
    ensures
        r@ == report@.subrange(from as int, end as int),
{
    let mut out: Vec<char> = Vec::new();
    let mut k: usize = from;
    while k < end
        invariant
            from <= k <= end <= report@.len(),
            out@ == report@.subrange(from as int, k as int),
        decreases end - k,
    {
        out.push(report[k]);
        proof {
            assert(report@.subrange(from as int, k + 1) =~= report@.subrange(
                from as int,
                k as int,
            ).push(report@[k as int]));
        }
        k += 1;
    }
    out
}

/// Reads a report of `git submodule status` and returns the paths of the
/// submodules that are not initialised, in the order of the report.
pub fn uninitialized(report: &[char]) -> (r: Vec<Vec<char>>)
    ensures
        r@.len() == uninitialized_paths(report@).len(),
        forall|i: int| 0 <= i < r@.len() ==> (#[trigger] r@[i])@ == uninitialized_paths(report@)[i],
{
    let n: usize = report.len();
    let mut out: Vec<Vec<char>> = Vec::new();
    let ghost mut found: Seq<Seq<char>> = Seq::empty();
    let mut from: usize = 0;
    while from < n
        invariant
            n == report@.len(),
            from <= n,
            out@.len() == found.len(),
            forall|i: int| 0 <= i < out@.len() ==> (#[trigger] out@[i])@ == found[i],
            found + paths_from(report@, from as int) == paths_from(report@, 0),
        decreases n - from,
    {
        let end: usize = find_line_end(report, from);
        let first: usize = skip_spaces(report, from, end);
        let rest: usize = skip_word(report, first, end);
        let start: usize = skip_spaces(report, rest, end);
        let ghost tail = if end < n {
            paths_from(report@, end + 1)
        } else {
            Seq::empty()
        };
        if report[from] == '-' && start < end {
            let stop: usize = skip_word(report, start, end);
            let path: Vec<char> = copy_range(report, start, stop);
            proof {
                assert(found.push(path@) + tail =~= found + (seq![path@] + tail));
                found = found.push(path@);
            }
            out.push(path);
        }
        if end < n {
            from = end + 1;
        } else {
            proof {
                assert(found + Seq::<Seq<char>>::empty() =~= found);
            }
            from = n;
        }
    }
    proof {
        assert(found + Seq::<Seq<char>>::empty() =~= found);
    }
    out
}

} // verus!
