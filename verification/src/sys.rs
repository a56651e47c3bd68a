use vstd::prelude::*;
use crate::text::{
    all_digits, chars_of, dec, dec_i64, dec_int, from_utf8_lossy, is_digit, is_ws, lemma_dec_digits,
    parse_i32, parse_int, parse_u64, string_of, trim, trim_chars, trim_end, trim_start, utf8_lossy, words,
    words_of,
};

verus! {

/// A process read from `/proc`: its pid, its name (the first field of its command
/// line), its `oom_score_adj` and its resident set size in KiB.
#[derive(Debug)]
pub struct ProcEntry {
    pub pid: i32,
    pub name: String,
    pub oom_adj: i32,
    pub rss_kb: u64,
}

impl Clone for ProcEntry {
    fn clone(&self) -> (r: Self)
        ensures
            r == *self,
    {
        ProcEntry { pid: self.pid, name: self.name.clone(), oom_adj: self.oom_adj, rss_kb: self.rss_kb }
    }
}

/// Whether a directory name under `/proc` names a process: non-empty and all ASCII digits.
pub fn is_pid_dir(s: &str) -> (r: bool)
    ensures
        r == (s@.len() > 0 && all_digits(s@)),
{
    let v = chars_of(s);
    if v.len() == 0 {
        return false;
    }
    let n = v.len();
    for i in 0..n
        invariant
            n == v@.len(),
            v@ == s@,
            forall|j: int| 0 <= j < i ==> is_digit(#[trigger] v@[j]),
    {
        let u = v[i] as u32;
        if u < 48 || u > 57 {
            return false;
        }
    }
    true
}

/// The pid that a directory name under `/proc` names, if it names one that fits an `i32`.
pub open spec fn pid_of_dir(s: Seq<char>) -> Option<int> {
    if s.len() > 0 && all_digits(s) {
        parse_int(s, true, i32::MIN as int, i32::MAX as int)
    } else {
        None
    }
}

/// The pid named by a directory name under `/proc`.
pub fn parse_pid(s: &str) -> (r: Option<i32>)
    ensures
        match r {
            Some(p) => pid_of_dir(s@) == Some(p as int),
            None => pid_of_dir(s@) is None,
        },
{
    if !is_pid_dir(s) {
        return None;
    }
    parse_i32(&chars_of(s))
}

/// The length of the longest prefix of `d` without a NUL byte.
pub open spec fn nul_prefix_len(d: Seq<u8>) -> int {
    choose|k: int| 0 <= k <= d.len() && (forall|j: int| 0 <= j < k ==> d[j] != 0) && (k == d.len() || d[k] == 0)
}

/// The process name in a `/proc/<pid>/cmdline` file: the first NUL-separated field,
/// decoded lossily; none when it is empty.
pub open spec fn cmdline_name_spec(data: Seq<u8>) -> Option<Seq<char>> {
    let name = utf8_lossy(data.take(nul_prefix_len(data)));
    if name.len() == 0 {
        None
    } else {
        Some(name)
    }
}

/// The process name held by the contents of a `/proc/<pid>/cmdline` file.
pub fn cmdline_name(data: &[u8]) -> (r: Option<String>)
    ensures
        match r {
            Some(s) => cmdline_name_spec(data@) == Some(s@),
            None => cmdline_name_spec(data@) is None,
        },
{
    let n = data.len();
    let mut k: usize = 0;
    while k < n && data[k] != 0
        invariant
            k <= n,
            n == data@.len(),
            forall|j: int| 0 <= j < k ==> data@[j] != 0,
        decreases n - k,
    {
        k = k + 1;
    }
    assert(0 <= k <= data@.len() && (forall|j: int| 0 <= j < k ==> data@[j] != 0) && (k == data@.len() || data@[k as int] == 0));
    let ghost c = nul_prefix_len(data@);
    assert(c == k as int) by {
        if c < k {
            assert(data@[c] == 0);
        } else if c > k {
            assert(data@[k as int] == 0);
        }
    }
    let mut first: Vec<u8> = Vec::new();
    for j in 0..k
        invariant
            k <= n,
            n == data@.len(),
            first@ == data@.take(j as int),
    {
        first.push(data[j]);
        assert(data@.take(j + 1) =~= data@.take(j as int).push(data@[j as int]));
    }
    let name = from_utf8_lossy(first.as_slice());
    if name.as_str().is_empty() {
        None
    } else {
        Some(name)
    }
}

/// The `oom_score_adj` held by the contents of `/proc/<pid>/oom_score_adj`.
pub fn parse_oom_adj(text: &str) -> (r: Option<i32>)
    ensures
        match r {
            Some(x) => parse_int(trim(text@), true, i32::MIN as int, i32::MAX as int) == Some(x as int),
            None => parse_int(trim(text@), true, i32::MIN as int, i32::MAX as int) is None,
        },
{
    let v = chars_of(text);
    parse_i32(&trim_chars(&v))
}

/// The resident set size in KiB that the contents of `/proc/<pid>/statm` give: the
/// second field counts 4 KiB pages; 0 when there is no such field or it is no number.
/// The product wraps as the release build of `pages * 4` does.
pub open spec fn rss_kb_spec(text: Seq<char>) -> u64 {
    let ws = words(text);
    if ws.len() >= 2 {
        match parse_int(ws[1], false, 0, u64::MAX as int) {
            Some(pages) => ((pages * 4) % 0x1_0000_0000_0000_0000) as u64,
            None => 0,
        }
    } else {
        0
    }
}

/// The resident set size in KiB held by the contents of `/proc/<pid>/statm`.
pub fn parse_rss_kb(text: &str) -> (r: u64)
    ensures
        r == rss_kb_spec(text@),
{
    let v = chars_of(text);
    let ws = words_of(&v);
    if ws.len() >= 2 {
        assert(ws@[1]@ == words(v@)[1]);
        match parse_u64(&ws[1]) {
            Some(pages) => pages.wrapping_mul(4),
            None => 0,
        }
    } else {
        0
    }
}

/// The entry for the process `pid`, from the contents of its `cmdline`, `oom_score_adj`
/// and `statm` files (`None` for a file that could not be read): none when the command
/// line cannot be read or names nothing; an unreadable or unparsable `oom_score_adj`
/// counts as 1000 (background), an unreadable `statm` as 0 KiB.
pub fn build_proc_entry(pid: i32, cmdline: Option<&[u8]>, oom_text: Option<&str>, statm_text: Option<&str>) -> (r: Option<ProcEntry>)
    ensures
        match r {
            Some(e) => {
                &&& cmdline is Some
                &&& cmdline_name_spec(cmdline.unwrap()@) == Some(e.name@)
                &&& e.pid == pid
                &&& e.oom_adj == match oom_text {
                    Some(t) => match parse_int(trim(t@), true, i32::MIN as int, i32::MAX as int) {
                        Some(x) => x as i32,
                        None => 1000,
                    },
                    None => 1000,
                }
                &&& e.rss_kb == match statm_text {
                    Some(t) => rss_kb_spec(t@),
                    None => 0,
                }
            },
            None => cmdline is None || cmdline_name_spec(cmdline.unwrap()@) is None,
        },
{
    let name = match cmdline {
        Some(d) => match cmdline_name(d) {
            Some(n) => n,
            None => return None,
        },
        None => return None,
    };
    let oom_adj = match oom_text {
        Some(t) => match parse_oom_adj(t) {
            Some(x) => x,
            None => 1000,
        },
        None => 1000,
    };
    let rss_kb = match statm_text {
        Some(t) => parse_rss_kb(t),
        None => 0,
    };
    Some(ProcEntry { pid, name, oom_adj, rss_kb })
}

/// What is written to a cpuset group file to move a process: its pid in decimal and a
/// newline.
pub open spec fn pid_line(pid: int) -> Seq<char> {
    dec_int(pid).push('\n')
}

/// A write of `content` to the first of `targets` that exists and accepts it.
pub struct GroupWrite {
    pub targets: Vec<String>,
    pub content: String,
}

/// The cpuset group files that hold a process back, tried in this order.
pub open spec fn restrict_groups() -> Seq<Seq<char>> {
    seq![
        "/dev/cpuset/restricted/tasks"@,
        "/dev/cpuset/background/tasks"@,
        "/sys/fs/cgroup/cpuset/restricted/cgroup.procs"@,
        "/sys/fs/cgroup/cpuset/background/cgroup.procs"@,
    ]
}

/// The cpuset group files that give a process its CPUs back, tried in this order.
pub open spec fn restore_groups() -> Seq<Seq<char>> {
    seq![
        "/dev/cpuset/foreground/tasks"@,
        "/dev/cpuset/top-app/tasks"@,
        "/sys/fs/cgroup/cpuset/foreground/cgroup.procs"@,
        "/sys/fs/cgroup/cpuset/top-app/cgroup.procs"@,
        "/sys/fs/cgroup/cpuset/cgroup.procs"@,
    ]
}

/// Restoring never writes a process into a group that restricts it: no group file
/// that a restore tries is one that a restriction tries, and the first one a restore
/// tries is the foreground cpuset.
pub proof fn law_restore_avoids_restricted_groups()
    ensures
        restore_groups().len() > 0,
        restore_groups()[0] == "/dev/cpuset/foreground/tasks"@,
        forall|i: int, j: int| 0 <= i < restore_groups().len() && 0 <= j < restrict_groups().len()
            ==> #[trigger] restore_groups()[i] != #[trigger] restrict_groups()[j],
{
    reveal_strlit("/dev/cpuset/restricted/tasks");
    reveal_strlit("/dev/cpuset/background/tasks");
    reveal_strlit("/sys/fs/cgroup/cpuset/restricted/cgroup.procs");
    reveal_strlit("/sys/fs/cgroup/cpuset/background/cgroup.procs");
    reveal_strlit("/dev/cpuset/foreground/tasks");
    reveal_strlit("/dev/cpuset/top-app/tasks");
    reveal_strlit("/sys/fs/cgroup/cpuset/foreground/cgroup.procs");
    reveal_strlit("/sys/fs/cgroup/cpuset/top-app/cgroup.procs");
    reveal_strlit("/sys/fs/cgroup/cpuset/cgroup.procs");
    let rs = restore_groups();
    let rt = restrict_groups();
    assert forall|i: int, j: int| 0 <= i < rs.len() && 0 <= j < rt.len() implies #[trigger] rs[i] != #[trigger] rt[j] by {
        if rs[i].len() == rt[j].len() {
            assert(rs[i][12] != rt[j][12] || rs[i][22] != rt[j][22]);
        }
    }
}

fn pid_content(pid: i32) -> (r: String)
    ensures
        r@ == pid_line(pid as int),
{
    let mut v = dec_i64(pid as i64);
    v.push('\n');
    string_of(v.as_slice())
}

fn owned(s: &str) -> (r: String)
    ensures
        r@ == s@,
{
    s.to_owned()
}

/// The write that moves `pid` into a restricted cpuset.
pub fn cpuset_restrict(pid: i32) -> (r: GroupWrite)
    ensures
        r.targets@.map_values(|t: String| t@) == restrict_groups(),
        r.content@ == pid_line(pid as int),
{
    let mut targets: Vec<String> = Vec::new();
    targets.push(owned("/dev/cpuset/restricted/tasks"));
    targets.push(owned("/dev/cpuset/background/tasks"));
    targets.push(owned("/sys/fs/cgroup/cpuset/restricted/cgroup.procs"));
    targets.push(owned("/sys/fs/cgroup/cpuset/background/cgroup.procs"));
    assert(targets@.map_values(|t: String| t@) =~= restrict_groups());
    GroupWrite { targets, content: pid_content(pid) }
}

/// The write that moves `pid` back into an unrestricted cpuset.
pub fn cpuset_restore(pid: i32) -> (r: GroupWrite)
    ensures
        r.targets@.map_values(|t: String| t@) == restore_groups(),
        r.content@ == pid_line(pid as int),
        r.targets@.len() > 0,
        r.targets@[0]@ == "/dev/cpuset/foreground/tasks"@,
        forall|i: int, j: int| 0 <= i < r.targets@.len() && 0 <= j < restrict_groups().len()
            ==> r.targets@[i]@ != restrict_groups()[j],
{
    let mut targets: Vec<String> = Vec::new();
    targets.push(owned("/dev/cpuset/foreground/tasks"));
    targets.push(owned("/dev/cpuset/top-app/tasks"));
    targets.push(owned("/sys/fs/cgroup/cpuset/foreground/cgroup.procs"));
    targets.push(owned("/sys/fs/cgroup/cpuset/top-app/cgroup.procs"));
    targets.push(owned("/sys/fs/cgroup/cpuset/cgroup.procs"));
    assert(targets@.map_values(|t: String| t@) =~= restore_groups());
    proof {
        law_restore_avoids_restricted_groups();
        assert forall|i: int, j: int| 0 <= i < targets@.len() && 0 <= j < restrict_groups().len()
            implies targets@[i]@ != restrict_groups()[j] by {
            assert(targets@.map_values(|t: String| t@)[i] == targets@[i]@);
        }
        assert(targets@.map_values(|t: String| t@)[0] == targets@[0]@);
    }
    GroupWrite { targets, content: pid_content(pid) }
}


/// What is written to a cpuset group file reads back as the pid: the kernel's parse of
/// the trimmed line gives the pid that was meant.
pub proof fn law_pid_line_reads_back(pid: i32)
    ensures
        parse_int(trim(pid_line(pid as int)), true, i32::MIN as int, i32::MAX as int) == Some(pid as int),
{
    let n: nat = if pid < 0 { (-pid) as nat } else { pid as nat };
    lemma_dec_digits(n);
    let d = dec(n);
    let s = dec_int(pid as int);
    assert(is_digit(d[0]));
    assert(is_digit(d[d.len() - 1]));
    if pid < 0 {
        assert(s == seq!['-'] + d);
        assert(s.drop_first() =~= d);
    } else {
        assert(s == d);
    }
    assert(s.len() > 0);
    assert(s.last() == d.last());
    let line = pid_line(pid as int);
    assert(line == s.push('\n'));
    assert(!is_ws(line[0]));
    assert(trim_start(line) == line);
    assert(line.drop_last() =~= s);
    assert(trim_end(line) == trim_end(s));
    assert(!is_ws(s.last()));
    assert(trim_end(s) == s);
}

}

