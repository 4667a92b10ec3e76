//! The external decoder's interface: diagnostic-text normalization,
//! exit-code classification, the command lines the decoder is invoked
//! with, and the digest check for the materialized decoder binary.

use vstd::prelude::*;

use sha2::Digest;

use crate::archive::Archive;
use crate::errors::EzzError;
use crate::errors::EzzResult;
use crate::errors::ExitCode;
use crate::text::contains_seq;
use crate::text::contains_substr;
use crate::text::split_on;
use crate::text::split_str;

verus! {

/// Whitespace inside a diagnostic line.
pub open spec fn is_space(c: char) -> bool {
    c == ' ' || c == '\t' || c == '\r'
}

/// The line with leading whitespace dropped.
pub open spec fn trim_front(l: Seq<char>) -> Seq<char>
    decreases l.len(),
{
    if l.len() > 0 && is_space(l[0]) {
        trim_front(l.drop_first())
    } else {
        l
    }
}

/// The line with trailing whitespace dropped.
pub open spec fn trim_back(l: Seq<char>) -> Seq<char>
    decreases l.len(),
{
    if l.len() > 0 && is_space(l.last()) {
        trim_back(l.drop_last())
    } else {
        l
    }
}

/// The line with whitespace dropped at both ends.
pub open spec fn trim_spec(l: Seq<char>) -> Seq<char> {
    trim_back(trim_front(l))
}

/// Trims a line at both ends.
pub fn trim_exec(l: &str) -> (r: String)
    ensures
        r@ == trim_spec(l@),
{
    let n = l.unicode_len();
    let mut a: usize = 0;
    proof {
        assert(l@.subrange(0, n as int) =~= l@);
    }
    while a < n && (l.get_char(a) == ' ' || l.get_char(a) == '\t' || l.get_char(a) == '\r')
        invariant
            n == l@.len(),
            0 <= a <= n,
            trim_front(l@) == trim_front(l@.subrange(a as int, n as int)),
        decreases n - a,
    {
        proof {
            let t = l@.subrange(a as int, n as int);
            assert(t[0] == l@[a as int]);
            assert(t.drop_first() =~= l@.subrange(a + 1, n as int));
        }
        a = a + 1;
    }
    proof {
        let t = l@.subrange(a as int, n as int);
        if t.len() > 0 {
            assert(t[0] == l@[a as int]);
        }
        assert(trim_front(l@) == t);
    }
    let mut b: usize = n;
    while b > a && (l.get_char(b - 1) == ' ' || l.get_char(b - 1) == '\t' || l.get_char(b - 1)
        == '\r')
        invariant
            n == l@.len(),
            0 <= a <= b <= n,
            trim_front(l@) == l@.subrange(a as int, n as int),
            trim_back(l@.subrange(a as int, n as int)) == trim_back(
                l@.subrange(a as int, b as int),
            ),
        decreases b,
    {
        proof {
            let t = l@.subrange(a as int, b as int);
            assert(t.last() == l@[b - 1]);
            assert(t.drop_last() =~= l@.subrange(a as int, b - 1));
        }
        b = b - 1;
    }
    proof {
        let t = l@.subrange(a as int, b as int);
        if t.len() > 0 {
            assert(t.last() == l@[b - 1]);
        }
        assert(trim_back(t) == t);
    }
    String::from_str(l.substring_char(a, b))
}

/// The normalized diagnostic text of the given lines: each line trimmed,
/// empty lines dropped, the rest joined with single spaces.
pub open spec fn norm_join(ls: Seq<Seq<char>>) -> Seq<char>
    decreases ls.len(),
{
    if ls.len() == 0 {
        Seq::empty()
    } else {
        let t = trim_spec(ls[0]);
        let rest = norm_join(ls.drop_first());
        if t.len() == 0 {
            rest
        } else if rest.len() == 0 {
            t
        } else {
            t + seq![' '] + rest
        }
    }
}

/// What normalizing decoder diagnostics yields.
pub open spec fn normalize_stderr_spec(s: Seq<char>) -> Seq<char> {
    norm_join(split_on(s, '\n'))
}

/// Normalizes decoder diagnostics for reporting: lines are trimmed,
/// empty lines dropped, and the rest joined with single spaces. The
/// wrong-password classification never goes through this: it matches
/// the raw text.
pub fn normalize_stderr(stderr: String) -> (r: String)
    ensures
        r@ == normalize_stderr_spec(stderr@),
{
    proof {
        reveal_strlit(" ");
    }
    let lines = split_str(stderr.as_str(), '\n');
    let ghost lns = split_on(stderr@, '\n');
    let mut out = String::new();
    let mut i: usize = 0;
    proof {
        assert(lns.subrange(0, lns.len() as int) =~= lns);
    }
    while i < lines.len()
        invariant
            0 <= i <= lns.len(),
            lines@.map_values(|l: String| l@) == lns,
            normalize_stderr_spec(stderr@) == (if out@.len() == 0 {
                norm_join(lns.subrange(i as int, lns.len() as int))
            } else if norm_join(lns.subrange(i as int, lns.len() as int)).len() == 0 {
                out@
            } else {
                out@ + seq![' '] + norm_join(lns.subrange(i as int, lns.len() as int))
            }),
        decreases lns.len() - i,
    {
        proof {
            reveal_strlit(" ");
        }
        let ghost tail = lns.subrange(i as int, lns.len() as int);
        proof {
            assert(tail[0] == lns[i as int]);
            assert(tail.drop_first() =~= lns.subrange(i + 1, lns.len() as int));
        }
        let t = trim_exec(lines[i].as_str());
        if t.as_str().unicode_len() > 0 {
            if out.as_str().unicode_len() > 0 {
                out.append(" ");
            }
            out.append(t.as_str());
        }
        i = i + 1;
    }
    proof {
        assert(lns.subrange(lns.len() as int, lns.len() as int) =~= Seq::<Seq<char>>::empty());
    }
    out
}

/// The marker the decoder prints when a password is rejected.
pub open spec fn wrong_password_marker() -> Seq<char> {
    seq!['W', 'r', 'o', 'n', 'g', ' ', 'p', 'a', 's', 's', 'w', 'o', 'r', 'd']
}

/// How a decoder exit is classified: codes zero and one succeed; a fatal
/// exit whose raw diagnostic text carries the literal wrong-password
/// marker is the one recoverable error; every other documented code is a
/// decoder failure, an undocumented code a contract violation, and a
/// missing code (the process was killed) counts as user-stopped.
pub open spec fn classify_exit(code: Option<int>, stderr: Seq<char>) -> Result<(), EzzError> {
    match code {
        None => Err(EzzError::Sevenzip(ExitCode::UserStopped)),
        Some(c) => if c == 0 || c == 1 {
            Ok(())
        } else if c == 2 {
            if contains_seq(stderr, wrong_password_marker()) {
                Err(EzzError::WrongPassword)
            } else {
                Err(EzzError::Sevenzip(ExitCode::FatalError))
            }
        } else if c == 7 {
            Err(EzzError::Sevenzip(ExitCode::CmdLineError))
        } else if c == 8 {
            Err(EzzError::Sevenzip(ExitCode::NotEnoughMem))
        } else if c == 255 {
            Err(EzzError::Sevenzip(ExitCode::UserStopped))
        } else {
            Err(EzzError::InvalidExitCode)
        },
    }
}

/// Classifies one decoder run from its exit code and diagnostic text.
pub fn handle_output(code: Option<i32>, stderr: String) -> (r: EzzResult<()>)
    ensures
        r == classify_exit(
            match code {
                Some(c) => Some(c as int),
                None => None,
            },
            stderr@,
        ),
{
    proof {
        reveal_strlit("Wrong password");
        assert("Wrong password"@ =~= wrong_password_marker());
    }
    match code {
        None => Err(EzzError::Sevenzip(ExitCode::UserStopped)),
        Some(c) => match ExitCode::from_code(c) {
            Ok(ExitCode::NoError) | Ok(ExitCode::Warning) => Ok(()),
            Ok(ExitCode::FatalError) => {
                if contains_substr(stderr.as_str(), "Wrong password") {
                    Err(EzzError::WrongPassword)
                } else {
                    Err(EzzError::Sevenzip(ExitCode::FatalError))
                }
            },
            Ok(other) => Err(EzzError::Sevenzip(other)),
            Err(_) => Err(EzzError::InvalidExitCode),
        },
    }
}

/// What decoding raw decoder output yields: a pure function of the
/// bytes.
pub uninterp spec fn utf8_lossy_of(bytes: Seq<u8>) -> Seq<char>;

/// Relies on String::from_utf8_lossy: the result depends on the bytes
/// alone, and bytes that are plain ASCII decode to themselves.
#[verifier::external_body]
pub fn decode_7z_output(input: &[u8]) -> (r: String)
    ensures
        r@ == utf8_lossy_of(input@),
        (forall|i: int| 0 <= i < input@.len() ==> (#[trigger] input@[i]) < 128) ==> r@
            == input@.map_values(|b: u8| b as char),
{
    String::from_utf8_lossy(input).to_string()
}

/// What hashing bytes yields: a pure function of the bytes.
pub uninterp spec fn sha256_of(data: Seq<u8>) -> Seq<u8>;

/// Relies on sha2::Sha256::digest: a 32-byte digest that depends on the
/// input bytes alone.
#[verifier::external_body]
fn sha256_digest(data: &[u8]) -> (r: Vec<u8>)
    ensures
        r@ == sha256_of(data@),
        r@.len() == 32,
{
    sha2::Sha256::digest(data).to_vec()
}

/// Byte-for-byte vector equality.
fn bytes_eq(a: &Vec<u8>, b: &Vec<u8>) -> (r: bool)
    ensures
        r == (a@ == b@),
{
    if a.len() != b.len() {
        return false;
    }
    let mut i: usize = 0;
    while i < a.len()
        invariant
            a@.len() == b@.len(),
            0 <= i <= a@.len(),
            forall|j: int| 0 <= j < i ==> a@[j] == b@[j],
        decreases a@.len() - i,
    {
        if a[i] != b[i] {
            return false;
        }
        i = i + 1;
    }
    proof {
        assert(a@ =~= b@);
    }
    true
}

/// Whether the decoder binary on disk must be rewritten: its bytes no
/// longer hash to the embedded copy's digest.
pub fn needs_refresh(existing: &[u8], embedded: &[u8]) -> (r: bool)
    ensures
        r == (sha256_of(existing@) != sha256_of(embedded@)),
{
    let a = sha256_digest(existing);
    let b = sha256_digest(embedded);
    !bytes_eq(&a, &b)
}

/// A handle on the materialized decoder binary.
pub struct Sevenzz {
    /// The path of the decoder program.
    pub program: String,
}

impl Sevenzz {
    /// A decoder handle for the program at `path`.
    pub fn construct(path: String) -> (z: Sevenzz)
        ensures
            z.program@ == path@,
    {
        Sevenzz { program: path }
    }

    /// The argument list of the listing command: it prints the archive's
    /// entries without extracting, with an empty password.
    pub fn command_l_args(&self, archive: &Archive) -> (r: Vec<String>)
        ensures
            r@.map_values(|s: String| s@) == command_l_spec(archive.path@),
    {
        let mut v: Vec<String> = Vec::new();
        v.push(String::from_str("l"));
        v.push(String::from_str("-p"));
        v.push(String::from_str("-bse0"));
        v.push(String::from_str("-bsp0"));
        v.push(String::from_str("-sccUTF-8"));
        v.push(String::from_str("-scsUTF-8"));
        v.push(archive.get_path().clone());
        proof {
            assert(v@.map_values(|s: String| s@) =~= command_l_spec(archive.path@));
        }
        v
    }

    /// The argument list of the test command for one password; a
    /// non-empty inner file name restricts the test to that entry.
    pub fn command_t_args(&self, archive: &Archive, pwd: &str, inner: &str) -> (r: Vec<String>)
        ensures
            r@.map_values(|s: String| s@) == command_t_spec(archive.path@, pwd@, inner@),
    {
        proof {
            reveal_strlit("-p");
        }
        let mut v: Vec<String> = Vec::new();
        v.push(String::from_str("t"));
        let mut pswitch = String::from_str("-p");
        pswitch.append(pwd);
        v.push(pswitch);
        v.push(String::from_str("-bso0"));
        v.push(String::from_str("-bsp0"));
        v.push(String::from_str("-sccUTF-8"));
        v.push(String::from_str("-scsUTF-8"));
        v.push(archive.get_path().clone());
        if inner.unicode_len() > 0 {
            v.push(String::from_str(inner));
        }
        proof {
            assert(v@.map_values(|s: String| s@) =~= command_t_spec(archive.path@, pwd@, inner@));
        }
        v
    }

    /// The argument list of the extraction command for one password: the
    /// output lands in the directory the archive's name derives.
    pub fn command_x_args(&self, archive: &Archive, pwd: &str) -> (r: Vec<String>)
        ensures
            r@.map_values(|s: String| s@) == command_x_spec(
                archive.path@,
                archive.volume,
                pwd@,
            ),
    {
        proof {
            reveal_strlit("-p");
            reveal_strlit("-o");
        }
        let mut v: Vec<String> = Vec::new();
        v.push(String::from_str("x"));
        let mut oswitch = String::from_str("-o");
        let dir = archive.derive_dir();
        oswitch.append(dir.as_str());
        v.push(oswitch);
        let mut pswitch = String::from_str("-p");
        pswitch.append(pwd);
        v.push(pswitch);
        v.push(String::from_str("-aot"));
        v.push(String::from_str("-spe"));
        v.push(String::from_str("-bso0"));
        v.push(String::from_str("-bsp0"));
        v.push(String::from_str("-sccUTF-8"));
        v.push(String::from_str("-scsUTF-8"));
        v.push(archive.get_path().clone());
        proof {
            assert(v@.map_values(|s: String| s@) =~= command_x_spec(
                archive.path@,
                archive.volume,
                pwd@,
            ));
        }
        v
    }

    /// The argument list of the container-demux command: it pulls the
    /// `2.zip` sibling out of the disguised file, into the file's own
    /// directory.
    pub fn command_stego_args(&self, video: &Archive) -> (r: EzzResult<Vec<String>>)
        ensures
            r matches Ok(v) ==> v@.map_values(|s: String| s@) == command_stego_spec(video.path@)
                && crate::pathing::file_name_spec(video.path@).len() > 0,
            r is Err ==> r == EzzResult::<Vec<String>>::Err(EzzError::PathError)
                && crate::pathing::file_name_spec(video.path@).len() == 0,
    {
        proof {
            reveal_strlit("-o");
        }
        let parent = match video.get_parent() {
            Ok(p) => p,
            Err(e) => {
                return Err(e);
            },
        };
        let mut v: Vec<String> = Vec::new();
        v.push(String::from_str("x"));
        let mut oswitch = String::from_str("-o");
        oswitch.append(parent.as_str());
        v.push(oswitch);
        v.push(String::from_str("-t#"));
        v.push(String::from_str("-aot"));
        v.push(String::from_str("-bso0"));
        v.push(String::from_str("-bsp0"));
        v.push(String::from_str("-sccUTF-8"));
        v.push(String::from_str("-scsUTF-8"));
        v.push(video.get_path().clone());
        v.push(String::from_str("2.zip"));
        proof {
            assert(v@.map_values(|s: String| s@) =~= command_stego_spec(video.path@));
        }
        Ok(v)
    }
}

/// The listing command's arguments.
pub open spec fn command_l_spec(archive: Seq<char>) -> Seq<Seq<char>> {
    seq!["l"@, "-p"@, "-bse0"@, "-bsp0"@, "-sccUTF-8"@, "-scsUTF-8"@, archive]
}

/// The test command's arguments.
pub open spec fn command_t_spec(archive: Seq<char>, pwd: Seq<char>, inner: Seq<char>) -> Seq<
    Seq<char>,
> {
    let base = seq!["t"@, "-p"@ + pwd, "-bso0"@, "-bsp0"@, "-sccUTF-8"@, "-scsUTF-8"@, archive];
    if inner.len() == 0 {
        base
    } else {
        base.push(inner)
    }
}

/// The extraction command's arguments.
pub open spec fn command_x_spec(
    archive: Seq<char>,
    volume: crate::archive::VolumeType,
    pwd: Seq<char>,
) -> Seq<Seq<char>> {
    seq![
        "x"@,
        "-o"@ + crate::archive::derive_dir_spec(archive, volume),
        "-p"@ + pwd,
        "-aot"@,
        "-spe"@,
        "-bso0"@,
        "-bsp0"@,
        "-sccUTF-8"@,
        "-scsUTF-8"@,
        archive,
    ]
}

/// The container-demux command's arguments.
pub open spec fn command_stego_spec(video: Seq<char>) -> Seq<Seq<char>> {
    seq![
        "x"@,
        "-o"@ + crate::pathing::parent_spec(video),
        "-t#"@,
        "-aot"@,
        "-bso0"@,
        "-bsp0"@,
        "-sccUTF-8"@,
        "-scsUTF-8"@,
        video,
        "2.zip"@,
    ]
}

} // verus!
