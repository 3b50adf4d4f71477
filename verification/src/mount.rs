//! Mount options: the comma-separated `-o` options a mount passes in,
//! parsed into a closed set of variants, and rendered back.

use vstd::prelude::*;
use vstd::string::*;

verus! {

/// One mount option. Flags carry no value; `blksize` and `maxsize` carry
/// a size text (non-empty), `tls` a path (possibly empty). Anything else
/// passes through as an opaque string.
#[derive(Debug, Clone, PartialEq, Eq)]
pub enum MountOption {
    Unknown(String),
    Dev,
    NoDev,
    Suid,
    NoSuid,
    RO,
    RW,
    Exec,
    NoExec,
    DirSync,
    DirectIO,
    BlkSize(String),
    MaxSize(String),
    Tls(String),
}

/// What option text `s` parses to.
pub open spec fn opt_matches(s: Seq<char>, o: MountOption) -> bool {
    match o {
        MountOption::Dev => s == "dev"@,
        MountOption::NoDev => s == "nodev"@,
        MountOption::Suid => s == "suid"@,
        MountOption::NoSuid => s == "nosuid"@,
        MountOption::RO => s == "ro"@,
        MountOption::RW => s == "rw"@,
        MountOption::Exec => s == "exec"@,
        MountOption::NoExec => s == "noexec"@,
        MountOption::DirSync => s == "dirsync"@,
        MountOption::DirectIO => s == "direct_io"@,
        MountOption::BlkSize(v) => s == "blksize="@ + v@ && v@.len() > 0,
        MountOption::MaxSize(v) => s == "maxsize="@ + v@ && v@.len() > 0,
        MountOption::Tls(v) => s == "tls="@ + v@,
        MountOption::Unknown(v) => {
            &&& v@ == s
            &&& s != "dev"@ && s != "nodev"@ && s != "suid"@ && s != "nosuid"@ && s != "ro"@
                && s != "rw"@ && s != "exec"@ && s != "noexec"@ && s != "dirsync"@ && s
                != "direct_io"@
            &&& !(exists|v2: Seq<char>| s == "blksize="@ + v2 && v2.len() > 0)
            &&& !(exists|v2: Seq<char>| s == "maxsize="@ + v2 && v2.len() > 0)
            &&& !(exists|v2: Seq<char>| s == "tls="@ + v2)
        },
    }
}

/// Whether two option texts are the same.
pub fn str_eq(a: &str, b: &str) -> (r: bool)
    ensures
        r == (a@ == b@),
{
    let na = a.unicode_len();
    let nb = b.unicode_len();
    if na != nb {
        proof {
            assert(a@ != b@);
        }
        return false;
    }
    let mut i: usize = 0;
    while i < na
        invariant
            i <= na,
            na == a@.len() && na == b@.len(),
            forall|j: int| 0 <= j < i ==> a@[j] == b@[j],
        decreases na - i,
    {
        if a.get_char(i) != b.get_char(i) {
            proof {
                assert(a@ != b@);
            }
            return false;
        }
        i += 1;
    }
    proof {
        assert(a@ =~= b@);
    }
    true
}

/// The position of the first `=` in the text, if any.
fn find_eq(s: &str) -> (r: Option<usize>)
    ensures
        match r {
            Some(i) => i < s@.len() && s@[i as int] == '=' && forall|j: int|
                0 <= j < i ==> s@[j] != '=',
            None => forall|j: int| 0 <= j < s@.len() ==> s@[j] != '=',
        },
{
    let n = s.unicode_len();
    let mut i: usize = 0;
    while i < n
        invariant
            i <= n,
            n == s@.len(),
            forall|j: int| 0 <= j < i ==> s@[j] != '=',
        decreases n - i,
    {
        if s.get_char(i) == '=' {
            return Some(i);
        }
        i += 1;
    }
    None
}

impl MountOption {
    /// Parses one option text. Flags reject a value, `blksize` and
    /// `maxsize` demand a non-empty one, `tls` demands one that may be
    /// empty; everything else stays opaque.
    pub fn parse(s: &str) -> (r: MountOption)
        ensures
            opt_matches(s@, r),
    {
        proof {
            reveal_strlit("dev");
            reveal_strlit("nodev");
            reveal_strlit("suid");
            reveal_strlit("nosuid");
            reveal_strlit("ro");
            reveal_strlit("rw");
            reveal_strlit("exec");
            reveal_strlit("noexec");
            reveal_strlit("dirsync");
            reveal_strlit("direct_io");
            reveal_strlit("blksize");
            reveal_strlit("maxsize");
            reveal_strlit("tls");
            reveal_strlit("blksize=");
            reveal_strlit("maxsize=");
            reveal_strlit("tls=");
        }
        match find_eq(s) {
            None => {
                if str_eq(s, "dev") {
                    MountOption::Dev
                } else if str_eq(s, "nodev") {
                    MountOption::NoDev
                } else if str_eq(s, "suid") {
                    MountOption::Suid
                } else if str_eq(s, "nosuid") {
                    MountOption::NoSuid
                } else if str_eq(s, "ro") {
                    MountOption::RO
                } else if str_eq(s, "rw") {
                    MountOption::RW
                } else if str_eq(s, "exec") {
                    MountOption::Exec
                } else if str_eq(s, "noexec") {
                    MountOption::NoExec
                } else if str_eq(s, "dirsync") {
                    MountOption::DirSync
                } else if str_eq(s, "direct_io") {
                    MountOption::DirectIO
                } else {
                    proof {
                        assert forall|v2: Seq<char>| s@ != "blksize="@ + v2 by {
                            if s@ == "blksize="@ + v2 {
                                assert(s@[7] == '=');
                            }
                        }
                        assert forall|v2: Seq<char>| s@ != "maxsize="@ + v2 by {
                            if s@ == "maxsize="@ + v2 {
                                assert(s@[7] == '=');
                            }
                        }
                        assert forall|v2: Seq<char>| s@ != "tls="@ + v2 by {
                            if s@ == "tls="@ + v2 {
                                assert(s@[3] == '=');
                            }
                        }
                    }
                    MountOption::Unknown(s.to_owned())
                }
            }
            Some(i) => {
                let n = s.unicode_len();
                let name = s.substring_char(0, i);
                let val = s.substring_char(i + 1, n);
                proof {
                    assert(s@ =~= name@ + seq!['='] + val@);
                }
                if str_eq(name, "blksize") && !val.is_empty() {
                    proof {
                        assert(s@ =~= "blksize="@ + val@);
                    }
                    MountOption::BlkSize(val.to_owned())
                } else if str_eq(name, "maxsize") && !val.is_empty() {
                    proof {
                        assert(s@ =~= "maxsize="@ + val@);
                    }
                    MountOption::MaxSize(val.to_owned())
                } else if str_eq(name, "tls") {
                    proof {
                        assert(s@ =~= "tls="@ + val@);
                    }
                    MountOption::Tls(val.to_owned())
                } else {
                    proof {
                        assert(s@ != "dev"@ && s@ != "nodev"@ && s@ != "suid"@ && s@
                            != "nosuid"@ && s@ != "ro"@ && s@ != "rw"@ && s@ != "exec"@ && s@
                            != "noexec"@ && s@ != "dirsync"@ && s@ != "direct_io"@) by {
                            assert(s@[i as int] == '=');
                        }
                        assert forall|v2: Seq<char>| !(s@ == "blksize="@ + v2 && v2.len()
                            > 0) by {
                            if s@ == "blksize="@ + v2 && v2.len() > 0 {
                                assert(forall|j: int| 0 <= j < 7 ==> ("blksize="@ + v2)[j] != '=');
                                assert(("blksize="@ + v2)[7] == '=');
                                assert(i == 7);
                                assert(name@ =~= "blksize"@);
                                assert(val@ =~= v2);
                            }
                        }
                        assert forall|v2: Seq<char>| !(s@ == "maxsize="@ + v2 && v2.len()
                            > 0) by {
                            if s@ == "maxsize="@ + v2 && v2.len() > 0 {
                                assert(forall|j: int| 0 <= j < 7 ==> ("maxsize="@ + v2)[j] != '=');
                                assert(("maxsize="@ + v2)[7] == '=');
                                assert(i == 7);
                                assert(name@ =~= "maxsize"@);
                                assert(val@ =~= v2);
                            }
                        }
                        assert forall|v2: Seq<char>| s@ != "tls="@ + v2 by {
                            if s@ == "tls="@ + v2 {
                                assert(forall|j: int| 0 <= j < 3 ==> ("tls="@ + v2)[j] != '=');
                                assert(("tls="@ + v2)[3] == '=');
                                assert(i == 3);
                                assert(name@ =~= "tls"@);
                            }
                        }
                    }
                    MountOption::Unknown(s.to_owned())
                }
            }
        }
    }

    /// Renders the option back to its mount-argument text.
    pub fn render(&self) -> (r: String)
        ensures
            match self {
                MountOption::Dev => r@ == "dev"@,
                MountOption::NoDev => r@ == "nodev"@,
                MountOption::Suid => r@ == "suid"@,
                MountOption::NoSuid => r@ == "nosuid"@,
                MountOption::RO => r@ == "ro"@,
                MountOption::RW => r@ == "rw"@,
                MountOption::Exec => r@ == "exec"@,
                MountOption::NoExec => r@ == "noexec"@,
                MountOption::DirSync => r@ == "dirsync"@,
                MountOption::DirectIO => r@ == "direct_io"@,
                MountOption::BlkSize(v) => r@ == "blksize="@ + v@,
                MountOption::MaxSize(v) => r@ == "maxsize="@ + v@,
                MountOption::Tls(v) => r@ == "tls="@ + v@,
                MountOption::Unknown(v) => r@ == v@,
            },
    {
        match self {
            MountOption::Dev => String::from_str("dev"),
            MountOption::NoDev => String::from_str("nodev"),
            MountOption::Suid => String::from_str("suid"),
            MountOption::NoSuid => String::from_str("nosuid"),
            MountOption::RO => String::from_str("ro"),
            MountOption::RW => String::from_str("rw"),
            MountOption::Exec => String::from_str("exec"),
            MountOption::NoExec => String::from_str("noexec"),
            MountOption::DirSync => String::from_str("dirsync"),
            MountOption::DirectIO => String::from_str("direct_io"),
            MountOption::BlkSize(v) => {
                let mut out = String::from_str("blksize=");
                out.append(v.as_str());
                out
            }
            MountOption::MaxSize(v) => {
                let mut out = String::from_str("maxsize=");
                out.append(v.as_str());
                out
            }
            MountOption::Tls(v) => {
                let mut out = String::from_str("tls=");
                out.append(v.as_str());
                out
            }
            MountOption::Unknown(v) => {
                let mut out = String::new();
                out.append(v.as_str());
                out
            }
        }
    }

    /// The variant's name with its value, as the derived debug form
    /// prints a numeric size: `BlkSize(32)` bare, strings quoted.
    pub fn describe(&self) -> (r: String)
    {
        match self {
            MountOption::Dev => String::from_str("Dev"),
            MountOption::NoDev => String::from_str("NoDev"),
            MountOption::Suid => String::from_str("Suid"),
            MountOption::NoSuid => String::from_str("NoSuid"),
            MountOption::RO => String::from_str("RO"),
            MountOption::RW => String::from_str("RW"),
            MountOption::Exec => String::from_str("Exec"),
            MountOption::NoExec => String::from_str("NoExec"),
            MountOption::DirSync => String::from_str("DirSync"),
            MountOption::DirectIO => String::from_str("DirectIO"),
            MountOption::BlkSize(v) => {
                let mut out = String::from_str("BlkSize(");
                out.append(v.as_str());
                out.append(")");
                out
            }
            MountOption::MaxSize(v) => {
                let mut out = String::from_str("MaxSize(");
                out.append(v.as_str());
                out.append(")");
                out
            }
            MountOption::Tls(v) => {
                let mut out = String::from_str("Tls(\"");
                out.append(v.as_str());
                out.append("\")");
                out
            }
            MountOption::Unknown(v) => {
                let mut out = String::from_str("Unknown(\"");
                out.append(v.as_str());
                out.append("\")");
                out
            }
        }
    }

    /// Splits every given text on commas and parses each piece.
    pub fn to_vec(texts: &Vec<String>) -> (r: Vec<MountOption>)
        ensures
            true,
    {
        let mut out: Vec<MountOption> = Vec::new();
        let mut i: usize = 0;
        while i < texts.len()
            decreases texts@.len() - i,
        {
            let s: &str = texts[i].as_str();
            let n = s.unicode_len();
            let mut piece_start: usize = 0;
            let mut j: usize = 0;
            while j < n
                invariant
                    piece_start <= j <= n,
                    n == s@.len(),
                decreases n - j,
            {
                if s.get_char(j) == ',' {
                    let piece = s.substring_char(piece_start, j);
                    out.push(MountOption::parse(piece));
                    piece_start = j + 1;
                }
                j += 1;
            }
            let piece = s.substring_char(piece_start, n);
            out.push(MountOption::parse(piece));
            i += 1;
        }
        out
    }

    /// Renders a whole option list the way the option debugging output
    /// shows it.
    pub fn describe_all(opts: &Vec<MountOption>) -> (r: String)
    {
        let mut out = String::from_str("[");
        let mut i: usize = 0;
        while i < opts.len()
            decreases opts@.len() - i,
        {
            if i > 0 {
                out.append(", ");
            }
            let d = opts[i].describe();
            out.append(d.as_str());
            i += 1;
        }
        out.append("]");
        out
    }
}

/// The paths a TLS configuration names; the surrounding process loads
/// them from the configuration file and checks they exist.
#[derive(Debug, Clone, PartialEq, Eq)]
pub struct TlsConfig {
    pub ca_path: String,
    pub cert_path: String,
    pub key_path: String,
}

impl TlsConfig {
    pub fn new(ca_path: String, cert_path: String, key_path: String) -> (r: TlsConfig)
        ensures
            r == (TlsConfig { ca_path, cert_path, key_path }),
    {
        TlsConfig { ca_path, cert_path, key_path }
    }
}

/// Where the TLS configuration lives when no `tls=` option names one.
pub fn default_tls_config_path() -> (r: String)
    ensures
        r@ == "~/.tifs/tls.toml"@,
{
    String::from_str("~/.tifs/tls.toml")
}

/// The size a size text denotes, if any: digits with an optional
/// fraction, exponent and binary or decimal unit prefix. The result
/// depends on the text alone.
pub uninterp spec fn parsed_size(s: Seq<char>) -> Option<u64>;

/// The size an option's value denotes: what the parser says of a text
/// short enough to hand it, nothing of a longer one.
pub open spec fn opt_size_of(v: Seq<char>) -> Option<u64> {
    if v.len() <= 19 {
        parsed_size(v)
    } else {
        None
    }
}

/// Relies on parse_size::parse_size for the size grammar: the same text
/// always denotes the same size. Its rounding step overflows on a digit
/// run spelling more than `u64::MAX` — a panic in a checked build — so a
/// text is handed over only when it is too short to contain one.
#[verifier::external_body]
pub fn parse_size_text(s: &str) -> (r: Option<u64>)
    requires
        s@.len() <= 19,
    ensures
        r == parsed_size(s@),
{
    parse_size::parse_size(s).ok()
}

} // verus!
