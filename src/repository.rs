use vstd::prelude::*;

use crate::matcher::chars_of;

verus! {

/// A named channel of a repository: one candidate of the picker.
pub struct Channel {
    pub name: String,
}

impl Channel {
    pub fn new(name: &str) -> (r: Channel)
        ensures
            r.name@ == name@,
    {
        Channel { name: String::from_str(name) }
    }
}

/// A source of the channels to choose from.
pub trait PijulRepository {
    /// Whether this repository is known to have no channels; by default it is
    /// not.
    open spec fn lists_no_channels(&self) -> bool {
        false
    }

    fn list_channels(&self) -> (r: Vec<Channel>)
        ensures
            self.lists_no_channels() ==> r@.len() == 0,
    ;
}

/// A repository read through the `pijul` command, run in `cwd`.
pub struct RealPijulRepository {
    cwd: String,
}

impl RealPijulRepository {
    pub fn new(cwd: &str) -> (r: Self)
        ensures
            r.cwd_view() == cwd@,
    {
        RealPijulRepository { cwd: String::from_str(cwd) }
    }

    pub closed spec fn cwd_view(&self) -> Seq<char> {
        self.cwd@
    }

    /// The directory the `pijul` command runs in.
    pub fn cwd(&self) -> (r: &str)
        ensures
            r@ == self.cwd_view(),
    {
        self.cwd.as_str()
    }

    /// The channels that `pijul channel list` printed: one per line of its
    /// output, trimmed, when the command succeeded; none when it failed.
    pub fn channels_from_output(success: bool, stdout: &str) -> (r: Vec<Channel>)
        ensures
            success ==> channel_names_of(r@) == channel_list(stdout@),
            !success ==> r@.len() == 0,
    {
        if !success {
            return Vec::new();
        }
        parse_channel_list(stdout)
    }
}

/// A repository with no channels.
pub struct FakePijulRepository {}

impl PijulRepository for FakePijulRepository {
    open spec fn lists_no_channels(&self) -> bool {
        true
    }

    fn list_channels(&self) -> (r: Vec<Channel>) {
        Vec::new()
    }
}

pub open spec fn channel_names_of(cs: Seq<Channel>) -> Seq<Seq<char>> {
    cs.map_values(|c: Channel| c.name@)
}

/// White space: the characters of Unicode's White_Space property.
pub open spec fn is_space(c: char) -> bool {
    let u = c as u32;
    (0x09 <= u && u <= 0x0d) || u == 0x20 || u == 0x85 || u == 0xa0 || u == 0x1680 || (0x2000 <= u
        && u <= 0x200a) || u == 0x2028 || u == 0x2029 || u == 0x202f || u == 0x205f || u == 0x3000
}

pub open spec fn trim_start(s: Seq<char>) -> Seq<char>
    decreases s.len(),
{
    if s.len() > 0 && is_space(s[0]) {
        trim_start(s.drop_first())
    } else {
        s
    }
}

pub open spec fn trim_end(s: Seq<char>) -> Seq<char>
    decreases s.len(),
{
    if s.len() > 0 && is_space(s.last()) {
        trim_end(s.drop_last())
    } else {
        s
    }
}

/// `s` without the white space at either end.
pub open spec fn trimmed(s: Seq<char>) -> Seq<char> {
    trim_end(trim_start(s))
}

/// The complete lines of `s` and the text after the last line break.
pub open spec fn lines_acc(s: Seq<char>) -> (Seq<Seq<char>>, Seq<char>)
    decreases s.len(),
{
    if s.len() == 0 {
        (Seq::empty(), Seq::empty())
    } else {
        let (ls, cur) = lines_acc(s.drop_last());
        if s.last() == '\n' {
            (ls.push(cur), Seq::empty())
        } else {
            (ls, cur.push(s.last()))
        }
    }
}

/// The lines of `s`: split at each line break, with no empty last line
/// after a final line break.
pub open spec fn output_lines(s: Seq<char>) -> Seq<Seq<char>> {
    let (ls, cur) = lines_acc(s);
    if cur.len() > 0 {
        ls.push(cur)
    } else {
        ls
    }
}

/// The channel names of a channel listing: its lines, trimmed.
pub open spec fn channel_list(s: Seq<char>) -> Seq<Seq<char>> {
    output_lines(s).map_values(|l: Seq<char>| trimmed(l))
}

fn space(c: char) -> (r: bool)
    ensures
        r == is_space(c),
{
    let u = c as u32;
    (0x09 <= u && u <= 0x0d) || u == 0x20 || u == 0x85 || u == 0xa0 || u == 0x1680 || (0x2000 <= u
        && u <= 0x200a) || u == 0x2028 || u == 0x2029 || u == 0x202f || u == 0x205f || u == 0x3000
}

/// The bounds of `v[start..end]` without its surrounding white space.
fn trimmed_bounds(v: &Vec<char>, start: usize, end: usize) -> (r: (usize, usize))
    requires
        start <= end <= v@.len(),
    ensures
        start <= r.0 <= r.1 <= end,
        v@.subrange(r.0 as int, r.1 as int) == trimmed(v@.subrange(start as int, end as int)),
{
    let mut a = start;
    while a < end && space(v[a])
        invariant
            start <= a <= end <= v@.len(),
            trim_start(v@.subrange(start as int, end as int)) == trim_start(v@.subrange(a as int, end as int)),
        decreases end - a,
    {
        assert(v@.subrange(a as int, end as int).drop_first() =~= v@.subrange(a + 1, end as int));
        a = a + 1;
    }
    assert(trim_start(v@.subrange(a as int, end as int)) == v@.subrange(a as int, end as int));
    let mut b = end;
    while b > a && space(v[b - 1])
        invariant
            start <= a <= b <= end <= v@.len(),
            trim_start(v@.subrange(start as int, end as int)) == v@.subrange(a as int, end as int),
            trim_end(v@.subrange(a as int, end as int)) == trim_end(v@.subrange(a as int, b as int)),
        decreases b - a,
    {
        assert(v@.subrange(a as int, b as int).drop_last() =~= v@.subrange(a as int, b - 1));
        b = b - 1;
    }
    assert(trim_end(v@.subrange(a as int, b as int)) == v@.subrange(a as int, b as int));
    (a, b)
}

/// The trimmed lines of `stdout`, each as a channel.
pub fn parse_channel_list(stdout: &str) -> (r: Vec<Channel>)
    ensures
        channel_names_of(r@) == channel_list(stdout@),
{
    let v = chars_of(stdout);
    let n = v.len();
    let mut r: Vec<Channel> = Vec::new();
    let mut start: usize = 0;
    let mut i: usize = 0;
    let ghost done: Seq<Seq<char>> = Seq::empty();
    while i < n
        invariant
            v@ == stdout@,
            n == v@.len(),
            start <= i <= n,
            lines_acc(v@.subrange(0, i as int)) == (done, v@.subrange(start as int, i as int)),
            channel_names_of(r@) == done.map_values(|l: Seq<char>| trimmed(l)),
        decreases n - i,
    {
        assert(v@.subrange(0, i + 1).drop_last() =~= v@.subrange(0, i as int));
        if v[i] == '\n' {
            let (a, b) = trimmed_bounds(&v, start, i);
            let name = String::from_str(stdout.substring_char(a, b));
            let ghost line = v@.subrange(start as int, i as int);
            let ghost before = r@;
            r.push(Channel { name });
            proof {
                assert(channel_names_of(r@) =~= channel_names_of(before).push(trimmed(line)));
                assert(done.push(line).map_values(|l: Seq<char>| trimmed(l)) =~= done.map_values(
                    |l: Seq<char>| trimmed(l),
                ).push(trimmed(line)));
                done = done.push(line);
                assert(v@.subrange((i + 1) as int, (i + 1) as int) =~= Seq::<char>::empty());
            }
            start = i + 1;
        } else {
            assert(v@.subrange(start as int, i + 1) =~= v@.subrange(start as int, i as int).push(v@[i as int]));
        }
        i = i + 1;
    }
    assert(v@.subrange(0, n as int) =~= v@);
    if start < n {
        let (a, b) = trimmed_bounds(&v, start, n);
        let name = String::from_str(stdout.substring_char(a, b));
        let ghost line = v@.subrange(start as int, n as int);
        let ghost before = r@;
        r.push(Channel { name });
        proof {
            assert(channel_names_of(r@) =~= channel_names_of(before).push(trimmed(line)));
            assert(done.push(line).map_values(|l: Seq<char>| trimmed(l)) =~= done.map_values(
                |l: Seq<char>| trimmed(l),
            ).push(trimmed(line)));
        }
    }
    r
}

} // verus!
