use vstd::prelude::*;

verus! {

/// What a pid-file reading means for the background watcher.
#[derive(Debug, Clone, Copy, PartialEq, Eq, Structural)]
pub enum DaemonState {
    /// The pid file names a live process.
    Running(u32),
    /// The pid file exists but its process is gone: the file is stale and
    /// should be removed.
    Stale,
    /// There is no usable pid file: no watcher is running.
    Absent,
}

/// An ASCII whitespace character, as a pid file may carry around the number.
pub open spec fn is_space(c: char) -> bool {
    c == ' ' || c == '\n' || c == '\r' || c == '\t'
}

/// The text with leading whitespace removed.
pub open spec fn trim_front(s: Seq<char>) -> Seq<char>
    decreases s.len(),
{
    if s.len() > 0 && is_space(s.first()) {
        trim_front(s.drop_first())
    } else {
        s
    }
}

/// The text with trailing whitespace removed.
pub open spec fn trim_back(s: Seq<char>) -> Seq<char>
    decreases s.len(),
{
    if s.len() > 0 && is_space(s.last()) {
        trim_back(s.drop_last())
    } else {
        s
    }
}

/// Every character is a decimal digit.
pub open spec fn all_digits(s: Seq<char>) -> bool {
    forall|i: int| 0 <= i < s.len() ==> 48 <= (#[trigger] s[i]) as u32 <= 57
}

/// The number a run of decimal digits spells.
pub open spec fn digits_value(s: Seq<char>) -> int
    decreases s.len(),
{
    if s.len() == 0 {
        0
    } else {
        digits_value(s.drop_last()) * 10 + (s.last() as u32 - 48)
    }
}

/// The digit run a pid file's text carries: the text with surrounding
/// whitespace and an optional leading plus sign removed.
pub open spec fn spec_pid_digits(s: Seq<char>) -> Seq<char> {
    let t = trim_back(trim_front(s));
    if t.len() > 0 && t[0] == '+' {
        t.drop_first()
    } else {
        t
    }
}

/// The pid a digit run names: it must be nonempty, all decimal digits, and
/// fit the machine integer.
pub open spec fn spec_pid_of_digits(d: Seq<char>) -> Option<u32> {
    if d.len() > 0 && all_digits(d) && digits_value(d) <= u32::MAX {
        Some(digits_value(d) as u32)
    } else {
        None
    }
}

/// What a pid file's text names: after surrounding whitespace is removed,
/// an optional plus sign followed by decimal digits whose value fits the
/// machine integer. Anything else names no pid.
pub open spec fn spec_parse_pid(s: Seq<char>) -> Option<u32> {
    spec_pid_of_digits(spec_pid_digits(s))
}

proof fn lemma_trim_front_skip(s: Seq<char>, i: int)
    requires
        0 <= i <= s.len(),
        forall|j: int| 0 <= j < i ==> is_space(#[trigger] s[j]),
    ensures
        trim_front(s) == trim_front(s.subrange(i, s.len() as int)),
    decreases i,
{
    if i > 0 {
        assert(is_space(s.first()));
        assert(s.drop_first() =~= s.subrange(1, s.len() as int));
        lemma_trim_front_skip(s.drop_first(), i - 1);
        assert(s.drop_first().subrange(i - 1, s.drop_first().len() as int) =~= s.subrange(
            i,
            s.len() as int,
        ));
    } else {
        assert(s.subrange(0, s.len() as int) =~= s);
    }
}

proof fn lemma_trim_back_cut(s: Seq<char>, b: int)
    requires
        0 <= b <= s.len(),
        forall|j: int| b <= j < s.len() ==> is_space(#[trigger] s[j]),
    ensures
        trim_back(s) == trim_back(s.subrange(0, b)),
    decreases s.len() - b,
{
    if b < s.len() {
        assert(is_space(s.last()));
        assert(s.drop_last() =~= s.subrange(0, s.len() - 1));
        lemma_trim_back_cut(s.drop_last(), b);
        assert(s.drop_last().subrange(0, b) =~= s.subrange(0, b));
    } else {
        assert(s.subrange(0, b) =~= s);
    }
}

proof fn lemma_digits_value_nonneg(s: Seq<char>)
    requires
        all_digits(s),
    ensures
        digits_value(s) >= 0,
    decreases s.len(),
{
    if s.len() > 0 {
        assert(all_digits(s.drop_last()));
        lemma_digits_value_nonneg(s.drop_last());
    }
}

proof fn lemma_digits_prefix_le(s: Seq<char>, m: int)
    requires
        all_digits(s),
        0 <= m <= s.len(),
    ensures
        digits_value(s.subrange(0, m)) <= digits_value(s),
    decreases s.len() - m,
{
    if m == s.len() {
        assert(s.subrange(0, m) =~= s);
    } else {
        assert(all_digits(s.drop_last()));
        lemma_digits_prefix_le(s.drop_last(), m);
        assert(s.drop_last().subrange(0, m) =~= s.subrange(0, m));
        lemma_digits_value_nonneg(s.drop_last());
    }
}

fn is_space_char(c: char) -> (r: bool)
    ensures
        r == is_space(c),
{
    c == ' ' || c == '\n' || c == '\r' || c == '\t'
}

/// Read the pid a pid file's text names, if any: surrounding whitespace is
/// tolerated, an unparsable or overflowing number names no pid.
pub fn parse_pid(text: &str) -> (r: Option<u32>)
    ensures
        r == spec_parse_pid(text@),
{
    let n = text.unicode_len();
    let mut a: usize = 0;
    while a < n && is_space_char(text.get_char(a))
        invariant
            n == text@.len(),
            a <= n,
            forall|j: int| 0 <= j < a ==> is_space(#[trigger] text@[j]),
        decreases n - a,
    {
        a = a + 1;
    }
    let mut b: usize = n;
    while b > a && is_space_char(text.get_char(b - 1))
        invariant
            n == text@.len(),
            a <= b <= n,
            forall|j: int| 0 <= j < a ==> is_space(#[trigger] text@[j]),
            a == n || !is_space(text@[a as int]),
            forall|j: int| b <= j < n ==> is_space(#[trigger] text@[j]),
        decreases b,
    {
        b = b - 1;
    }
    proof {
        lemma_trim_front_skip(text@, a as int);
        let tf = text@.subrange(a as int, n as int);
        assert(trim_front(tf) == tf);
        lemma_trim_back_cut(tf, b - a);
        assert(tf.subrange(0, b - a) =~= text@.subrange(a as int, b as int));
        let t = text@.subrange(a as int, b as int);
        assert(trim_back(t) == t);
        assert(trim_back(trim_front(text@)) == t);
    }
    let ghost t = text@.subrange(a as int, b as int);
    let mut i: usize = a;
    if i < b && text.get_char(i) == '+' {
        proof {
            assert(t[0] == text@[a as int]);
            assert(t.drop_first() =~= text@.subrange(a + 1, b as int));
        }
        i = i + 1;
    }
    let ghost d = text@.subrange(i as int, b as int);
    proof {
        assert(d == (if t.len() > 0 && t[0] == '+' {
            t.drop_first()
        } else {
            t
        }));
        assert(spec_pid_digits(text@) == d);
    }
    if i == b {
        return None;
    }
    let mut acc: u32 = 0;
    let mut j: usize = i;
    while j < b
        invariant
            n == text@.len(),
            i <= j <= b <= n,
            d == text@.subrange(i as int, b as int),
            spec_pid_digits(text@) == d,
            i < b,
            forall|k: int| i <= k < j ==> 48 <= (#[trigger] text@[k]) as u32 <= 57,
            acc as int == digits_value(text@.subrange(i as int, j as int)),
        decreases b - j,
    {
        let c = text.get_char(j);
        let u = c as u32;
        if u < 48 || u > 57 {
            proof {
                assert(d[j - i] == text@[j as int]);
                assert(!all_digits(d));
            }
            return None;
        }
        let dg = u - 48;
        if acc > (u32::MAX - dg) / 10 {
            proof {
                let pre = text@.subrange(i as int, j + 1);
                assert(pre.drop_last() =~= text@.subrange(i as int, j as int));
                assert(pre.last() == text@[j as int]);
                assert(digits_value(pre) == acc * 10 + dg);
                assert(acc * 10 + dg > u32::MAX) by {
                    let x = (u32::MAX - dg) as int;
                    assert(10 * (x / 10) >= x - 9);
                    assert(acc as int >= x / 10 + 1);
                };
                if all_digits(d) {
                    assert(d.subrange(0, j + 1 - i) =~= pre);
                    lemma_digits_prefix_le(d, j + 1 - i);
                    assert(digits_value(d) > u32::MAX);
                }
            }
            return None;
        }
        proof {
            let pre = text@.subrange(i as int, j + 1);
            assert(pre.drop_last() =~= text@.subrange(i as int, j as int));
            assert(pre.last() == text@[j as int]);
            let x = (u32::MAX - dg) as int;
            assert(10 * (x / 10) <= x);
        }
        acc = acc * 10 + dg;
        j = j + 1;
    }
    proof {
        assert(d =~= text@.subrange(i as int, b as int));
        assert(forall|k: int| 0 <= k < d.len() ==> d[k] == text@[i + k]);
        assert(all_digits(d));
        assert(digits_value(d) == acc as int);
    }
    Some(acc)
}

/// Decide the watcher's status from what the pid file held and whether that
/// process is alive.
pub fn pid_file_status(pid: Option<u32>, alive: bool) -> (r: DaemonState)
    ensures
        r == (match pid {
            Some(p) => if alive {
                DaemonState::Running(p)
            } else {
                DaemonState::Stale
            },
            None => DaemonState::Absent,
        }),
{
    match pid {
        Some(p) => if alive {
            DaemonState::Running(p)
        } else {
            DaemonState::Stale
        },
        None => DaemonState::Absent,
    }
}

} // verus!
