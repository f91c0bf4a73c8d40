//! Disk-usage reporting support: parsing the tabular output of a disk-free
//! query into records, picking a record by mount point, and resolving an
//! executable's path from a fixed list of system directories.

use vstd::prelude::*;
use crate::analysis::{split_text_lines, text_lines};

verus! {

/// Inter-field whitespace in tabular command output: the characters the
/// Unicode `White_Space` property lists.
pub open spec fn is_space(c: char) -> bool {
    ||| 9 <= c as u32 <= 13
    ||| c as u32 == 32
    ||| c as u32 == 0x85
    ||| c as u32 == 0xA0
    ||| c as u32 == 0x1680
    ||| 0x2000 <= c as u32 <= 0x200A
    ||| c as u32 == 0x2028
    ||| c as u32 == 0x2029
    ||| c as u32 == 0x202F
    ||| c as u32 == 0x205F
    ||| c as u32 == 0x3000
}

/// The maximal whitespace-free fields of a line, in order.
pub open spec fn ws_split(s: Seq<char>) -> Seq<Seq<char>>
    decreases s.len(),
{
    if s.len() == 0 {
        Seq::empty()
    } else if is_space(s[0]) {
        ws_split(s.skip(1))
    } else {
        let rest = ws_split(s.skip(1));
        if rest.len() == 0 {
            seq![seq![s[0]]]
        } else if s.len() >= 2 && !is_space(s[1]) {
            seq![seq![s[0]] + rest[0]] + rest.skip(1)
        } else {
            seq![seq![s[0]]] + rest
        }
    }
}

/// A maximal whitespace-free run is one field, and splitting continues after
/// it.
proof fn lemma_ws_split_token(s: Seq<char>, i: int, j: int)
    requires
        0 <= i < j <= s.len(),
        forall|t: int| i <= t < j ==> !is_space(s[t]),
        j == s.len() || is_space(s[j]),
    ensures
        ws_split(s.skip(i)) == seq![s.subrange(i, j)] + ws_split(s.skip(j)),
    decreases j - i,
{
    let si = s.skip(i);
    assert(si[0] == s[i] && !is_space(s[i]));
    assert(si.skip(1) =~= s.skip(i + 1));
    if i + 1 == j {
        if j == s.len() {
            assert(s.skip(j).len() == 0);
            assert(ws_split(s.skip(j)).len() == 0);
            if si.len() >= 2 {
                assert(false);
            }
            assert(ws_split(si) =~~= seq![s.subrange(i, j)] + ws_split(s.skip(j))) by {
                assert(seq![si[0]] =~= s.subrange(i, j));
            }
        } else {
            assert(si.len() >= 2 && si[1] == s[j] && is_space(s[j]));
            assert(ws_split(si) =~~= seq![s.subrange(i, j)] + ws_split(s.skip(j))) by {
                assert(seq![si[0]] =~= s.subrange(i, j));
            }
        }
    } else {
        lemma_ws_split_token(s, i + 1, j);
        let rest = ws_split(s.skip(i + 1));
        assert(rest == seq![s.subrange(i + 1, j)] + ws_split(s.skip(j)));
        assert(rest.len() > 0);
        assert(si.len() >= 2 && si[1] == s[i + 1] && !is_space(s[i + 1]));
        assert(ws_split(si) =~~= seq![s.subrange(i, j)] + ws_split(s.skip(j))) by {
            assert(seq![si[0]] + rest[0] =~= s.subrange(i, j)) by {
                assert(rest[0] == s.subrange(i + 1, j));
            }
            assert(rest.skip(1) =~~= ws_split(s.skip(j)));
        }
    }
}

/// Decides whether `c` is inter-field whitespace.
fn is_space_char(c: char) -> (r: bool)
    ensures
        r == is_space(c),
{
    let u = c as u32;
    (9 <= u && u <= 13) || u == 32 || u == 0x85 || u == 0xA0 || u == 0x1680 || (0x2000 <= u && u
        <= 0x200A) || u == 0x2028 || u == 0x2029 || u == 0x202F || u == 0x205F || u == 0x3000
}

/// Splits a line into its maximal whitespace-free fields, in order.
pub fn split_fields(line: &str) -> (r: Vec<String>)
    ensures
        r.deep_view() == ws_split(line@),
{
    let n = line.unicode_len();
    let mut toks: Vec<String> = Vec::new();
    let mut i: usize = 0;
    proof {
        assert(line@.skip(0) =~= line@);
        assert(toks.deep_view() =~= Seq::<Seq<char>>::empty());
    }
    while i < n
        invariant
            n == line@.len(),
            i <= n,
            ws_split(line@) == toks.deep_view() + ws_split(line@.skip(i as int)),
        decreases n - i,
    {
        let c = line.get_char(i);
        if is_space_char(c) {
            proof {
                assert(line@.skip(i as int).skip(1) =~= line@.skip(i + 1));
            }
            i += 1;
        } else {
            let mut j = i + 1;
            while j < n && !is_space_char(line.get_char(j))
                invariant
                    n == line@.len(),
                    i < j <= n,
                    forall|t: int| i < t < j ==> !is_space(line@[t]),
                decreases n - j,
            {
                j += 1;
            }
            proof {
                assert(!is_space(line@[i as int]));
                lemma_ws_split_token(line@, i as int, j as int);
            }
            let tok = line.substring_char(i, j).to_owned();
            let ghost prev = toks.deep_view();
            toks.push(tok);
            proof {
                assert(toks.deep_view() =~= prev.push(line@.subrange(i as int, j as int)));
            }
            i = j;
        }
    }
    proof {
        assert(line@.skip(n as int) =~= Seq::<char>::empty());
        assert(toks.deep_view() =~= ws_split(line@));
    }
    toks
}

/// A record of one filesystem row of a disk-free report.
pub struct Filesystem {
    pub filesystem: String,
    pub size: String,
    pub used: String,
    pub available: String,
    pub use_percent: String,
    pub mounted_on: String,
}

impl DeepView for Filesystem {
    type V = Seq<Seq<char>>;

    open spec fn deep_view(&self) -> Seq<Seq<char>> {
        seq![
            self.filesystem@,
            self.size@,
            self.used@,
            self.available@,
            self.use_percent@,
            self.mounted_on@,
        ]
    }
}

impl Filesystem {
    /// Creates a record from its six fields.
    pub fn new(
        filesystem: String,
        size: String,
        used: String,
        available: String,
        use_percent: String,
        mounted_on: String,
    ) -> (r: Filesystem)
        ensures
            r.filesystem == filesystem,
            r.size == size,
            r.used == used,
            r.available == available,
            r.use_percent == use_percent,
            r.mounted_on == mounted_on,
    {
        Filesystem { filesystem, size, used, available, use_percent, mounted_on }
    }
}

/// A report line that names a device: it starts with `/`. The header line
/// (which starts with the word `Filesystem`) and empty lines never do.
pub open spec fn device_line(l: Seq<char>) -> bool {
    l.len() > 0 && l[0] == '/'
}

/// The records of a disk-free report: the first six fields of each device
/// line, in order.
pub open spec fn df_devices(lines: Seq<Seq<char>>) -> Seq<Seq<Seq<char>>>
    decreases lines.len(),
{
    if lines.len() == 0 {
        Seq::empty()
    } else {
        let prev = df_devices(lines.drop_last());
        if device_line(lines.last()) {
            prev.push(ws_split(lines.last()).take(6))
        } else {
            prev
        }
    }
}

/// Parses the tabular output of a disk-free query: the header line, empty
/// lines and non-device lines are skipped; each device line (it starts with
/// `/`) yields a record built from its first six fields.
pub fn parse_df_output(input: &str) -> (r: Vec<Filesystem>)
    requires
        forall|i: int|
            0 <= i < text_lines(input@).len() ==> (device_line(
                #[trigger] text_lines(input@)[i],
            ) ==> ws_split(text_lines(input@)[i]).len() >= 6),
    ensures
        r.deep_view() == df_devices(text_lines(input@)),
{
    let lines = split_text_lines(input);
    let ghost lseq = lines.deep_view();
    let mut devices: Vec<Filesystem> = Vec::new();
    let n = lines.len();
    proof {
        assert(lseq.take(0) =~= Seq::<Seq<char>>::empty());
        assert(devices.deep_view() =~= df_devices(lseq.take(0)));
    }
    let mut i: usize = 0;
    while i < n
        invariant
            n == lines@.len(),
            lseq == lines.deep_view(),
            lseq == text_lines(input@),
            i <= n,
            devices.deep_view() == df_devices(lseq.take(i as int)),
            forall|t: int|
                0 <= t < lseq.len() ==> (device_line(#[trigger] lseq[t]) ==> ws_split(
                    lseq[t],
                ).len() >= 6),
        decreases n - i,
    {
        proof {
            assert(lseq.take(i + 1).drop_last() =~= lseq.take(i as int));
            assert(lseq.take(i + 1).last() == lines@[i as int]@);
        }
        let line = &lines[i];
        let ln = line.as_str().unicode_len();
        if ln > 0 && line.as_str().get_char(0) == '/' {
            let fields = split_fields(line.as_str());
            assert(fields@.len() >= 6);
            let record = Filesystem::new(
                fields[0].clone(),
                fields[1].clone(),
                fields[2].clone(),
                fields[3].clone(),
                fields[4].clone(),
                fields[5].clone(),
            );
            let ghost prev = devices.deep_view();
            devices.push(record);
            proof {
                assert(devices.deep_view() =~~= prev.push(ws_split(lseq[i as int]).take(6)));
            }
        }
        proof {
            assert(devices.deep_view() =~~= df_devices(lseq.take(i + 1)));
        }
        i += 1;
    }
    proof {
        assert(lseq.take(n as int) =~= lseq);
    }
    devices
}

/// Finds the first record mounted on `path`.
pub fn find_mounted(devices: &Vec<Filesystem>, path: &str) -> (r: Option<usize>)
    ensures
        match r {
            Some(i) => i < devices@.len() && devices@[i as int].mounted_on@ == path@ && forall|
                j: int,
            | 0 <= j < i ==> devices@[j].mounted_on@ != path@,
            None => forall|j: int| 0 <= j < devices@.len() ==> devices@[j].mounted_on@ != path@,
        },
{
    let p = String::from_str(path);
    let n = devices.len();
    let mut i: usize = 0;
    while i < n
        invariant
            n == devices@.len(),
            i <= n,
            p@ == path@,
            forall|j: int| 0 <= j < i ==> devices@[j].mounted_on@ != path@,
        decreases n - i,
    {
        if devices[i].mounted_on == p {
            return Some(i);
        }
        i += 1;
    }
    None
}

/// Relies on `std::path::Path::exists`: whether the path names an entry on
/// this machine now. Nothing is promised of the result.
#[verifier::external_body]
fn path_exists(p: &str) -> bool {
    std::path::Path::new(p).exists()
}

/// The path that the fixed system directories resolve a command to, given
/// whether each holds it, tried in exactly this priority order.
pub open spec fn selected_path(
    command: Seq<char>,
    in_bin: bool,
    in_usr_bin: bool,
    in_usr_local_bin: bool,
) -> Seq<char> {
    if in_bin {
        "/bin/"@ + command
    } else if in_usr_bin {
        "/usr/bin/"@ + command
    } else if in_usr_local_bin {
        "/usr/local/bin/"@ + command
    } else {
        command
    }
}

/// Picks a command's resolved path from the three existence answers: the
/// first directory that holds it wins, in the fixed priority order, and a
/// command held nowhere comes back unchanged.
pub fn select_executable(
    command: &str,
    in_bin: bool,
    in_usr_bin: bool,
    in_usr_local_bin: bool,
) -> (r: String)
    ensures
        r@ == selected_path(command@, in_bin, in_usr_bin, in_usr_local_bin),
{
    if in_bin {
        String::from_str("/bin/").concat(command)
    } else if in_usr_bin {
        String::from_str("/usr/bin/").concat(command)
    } else if in_usr_local_bin {
        String::from_str("/usr/local/bin/").concat(command)
    } else {
        command.to_owned()
    }
}

/// Resolves a command to its full path in the first of the fixed system
/// directories that holds it, or hands the command back unchanged. Which
/// directories hold it is the machine's answer, so only the result's shape
/// can be promised here; the priority order is `select_executable`'s.
pub fn which_executable(command: &str) -> (r: String)
    ensures
        r@ == "/bin/"@ + command@ || r@ == "/usr/bin/"@ + command@ || r@ == "/usr/local/bin/"@
            + command@ || r@ == command@,
{
    let c1 = String::from_str("/bin/").concat(command);
    let in_bin = path_exists(c1.as_str());
    let c2 = String::from_str("/usr/bin/").concat(command);
    let in_usr_bin = !in_bin && path_exists(c2.as_str());
    let c3 = String::from_str("/usr/local/bin/").concat(command);
    let in_usr_local_bin = !in_bin && !in_usr_bin && path_exists(c3.as_str());
    select_executable(command, in_bin, in_usr_bin, in_usr_local_bin)
}

} // verus!
