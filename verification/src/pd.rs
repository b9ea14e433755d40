//! The placement-driver client's data the core reads: the cluster it
//! belongs to and the cluster version its leader last reported.  The wire
//! protocol that fills these lives outside the core.

use vstd::prelude::*;

verus! {

/// A semantic version of the cluster, as the placement driver reports it;
/// absent until the first report arrives.
#[derive(Clone, Copy, PartialEq, Eq, Debug)]
pub struct ClusterVersion {
    pub version: Option<(u64, u64, u64)>,
}

impl ClusterVersion {
    /// No version reported yet.
    pub fn unknown() -> (r: ClusterVersion)
        ensures
            r.version is None,
    {
        ClusterVersion { version: Option::None }
    }

    /// A reported `major.minor.patch` version.
    pub fn new(major: u64, minor: u64, patch: u64) -> (r: ClusterVersion)
        ensures
            r.version == Option::Some((major, minor, patch)),
    {
        ClusterVersion { version: Option::Some((major, minor, patch)) }
    }
}

/// The client's view of the placement driver: the cluster it serves and
/// the version its leader reported.
#[derive(Debug)]
pub struct RpcClient {
    pub cluster_id: u64,
    pub cluster_version: ClusterVersion,
}

impl RpcClient {
    /// A client for the given cluster, before any version report.
    pub fn with_cluster_id(cluster_id: u64) -> (r: RpcClient)
        ensures
            r.cluster_id == cluster_id,
            r.cluster_version.version is None,
    {
        RpcClient { cluster_id, cluster_version: ClusterVersion::unknown() }
    }

    /// Records the version the leader reported.
    pub fn set_cluster_version(&mut self, v: ClusterVersion)
        ensures
            final(self).cluster_id == old(self).cluster_id,
            final(self).cluster_version == v,
    {
        self.cluster_version = v;
    }

    /// The cluster version the leader last reported.
    pub fn cluster_version(&self) -> (r: ClusterVersion)
        ensures
            r == self.cluster_version,
    {
        self.cluster_version
    }
}

/// The character for one decimal digit.
pub open spec fn digit_char(d: nat) -> char {
    if d == 0 {
        '0'
    } else if d == 1 {
        '1'
    } else if d == 2 {
        '2'
    } else if d == 3 {
        '3'
    } else if d == 4 {
        '4'
    } else if d == 5 {
        '5'
    } else if d == 6 {
        '6'
    } else if d == 7 {
        '7'
    } else if d == 8 {
        '8'
    } else {
        '9'
    }
}

/// The decimal rendering of `n`, most significant digit first.
pub open spec fn dec_str_of(n: nat) -> Seq<char>
    decreases n,
{
    if n < 10 {
        seq![digit_char(n)]
    } else {
        dec_str_of(n / 10) + seq![digit_char(n % 10)]
    }
}

/// The one-character string for a decimal digit.
fn digit_str(d: u32) -> (r: &'static str)
    requires
        d < 10,
    ensures
        r@ == seq![digit_char(d as nat)],
{
    if d == 0 {
        proof {
            reveal_strlit("0");
            assert("0"@ =~= seq!['0']);
        }
        "0"
    } else if d == 1 {
        proof {
            reveal_strlit("1");
            assert("1"@ =~= seq!['1']);
        }
        "1"
    } else if d == 2 {
        proof {
            reveal_strlit("2");
            assert("2"@ =~= seq!['2']);
        }
        "2"
    } else if d == 3 {
        proof {
            reveal_strlit("3");
            assert("3"@ =~= seq!['3']);
        }
        "3"
    } else if d == 4 {
        proof {
            reveal_strlit("4");
            assert("4"@ =~= seq!['4']);
        }
        "4"
    } else if d == 5 {
        proof {
            reveal_strlit("5");
            assert("5"@ =~= seq!['5']);
        }
        "5"
    } else if d == 6 {
        proof {
            reveal_strlit("6");
            assert("6"@ =~= seq!['6']);
        }
        "6"
    } else if d == 7 {
        proof {
            reveal_strlit("7");
            assert("7"@ =~= seq!['7']);
        }
        "7"
    } else if d == 8 {
        proof {
            reveal_strlit("8");
            assert("8"@ =~= seq!['8']);
        }
        "8"
    } else {
        proof {
            reveal_strlit("9");
            assert("9"@ =~= seq!['9']);
        }
        "9"
    }
}

/// Appends the decimal rendering of `n`.
fn push_dec(s: &mut String, n: u32)
    ensures
        final(s)@ == old(s)@ + dec_str_of(n as nat),
    decreases n,
{
    if n < 10 {
        s.append(digit_str(n));
    } else {
        push_dec(s, n / 10);
        s.append(digit_str(n % 10));
        proof {
            assert(s@ =~= old(s)@ + dec_str_of(n as nat));
        }
    }
}

/// The directory the server's advisory lock files live under: the owning
/// user's id, rendered in decimal, ahead of a fixed suffix.  The id itself
/// comes from the caller, which reads it from the process's environment.
pub fn get_lock_dir(uid: u32) -> (r: String)
    ensures
        r@ == dec_str_of(uid as nat) + "_TIKV_LOCK_FILES"@,
{
    let mut s = String::from_str("");
    proof {
        reveal_strlit("");
        assert(s@ =~= Seq::<char>::empty());
    }
    push_dec(&mut s, uid);
    s.append("_TIKV_LOCK_FILES");
    proof {
        assert(s@ =~= dec_str_of(uid as nat) + "_TIKV_LOCK_FILES"@);
    }
    s
}

} // verus!
