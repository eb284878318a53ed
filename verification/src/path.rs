//! Translation between the host filesystem's path representation and the
//! subsystem's, plus the basename used to recover a launcher's command name.
//!
//! A host path under the shared mount has the shape `D:\...` (a drive letter,
//! a colon, a backslash); its subsystem equivalent is `/mnt/D/...` with every
//! backslash turned into a slash. The drive letter is carried over verbatim:
//! the host side compares drive letters case-insensitively and the translation
//! must be a bijection on the strings themselves, so no case is invented.
//! Paths outside this shape (relative paths, UNC shares, unmounted volumes)
//! are not reachable from both sides and are reported as unmappable.

use vstd::prelude::*;

use crate::error::LinkError;

verus! {

/// An ASCII letter, the only characters that name a drive.
pub open spec fn is_drive_letter(c: char) -> bool {
    (65 <= c as u32 && c as u32 <= 90) || (97 <= c as u32 && c as u32 <= 122)
}

/// The subsystem-side directory under which host drives appear.
pub open spec fn mnt_prefix() -> Seq<char> {
    seq!['/', 'm', 'n', 't', '/']
}

/// How one host character appears on the subsystem side.
pub open spec fn host_to_sub_char(c: char) -> char {
    if c == '\\' {
        '/'
    } else {
        c
    }
}

/// How one subsystem character appears on the host side.
pub open spec fn sub_to_host_char(c: char) -> char {
    if c == '/' {
        '\\'
    } else {
        c
    }
}

/// A host path that is reachable from the subsystem: an absolute drive path
/// `D:\...` whose remainder uses backslash separators only. A forward slash
/// anywhere after the drive prefix would collide with the translated
/// separators, so such paths are outside the shared mount's image.
pub open spec fn is_mapped_host_path(s: Seq<char>) -> bool {
    &&& s.len() >= 3
    &&& is_drive_letter(s[0])
    &&& s[1] == ':'
    &&& s[2] == '\\'
    &&& forall|i: int| 2 <= i < s.len() ==> s[i] != '/'
}

/// A subsystem path that is reachable from the host: `/mnt/D/...` whose
/// remainder uses slash separators only.
pub open spec fn is_mapped_sub_path(t: Seq<char>) -> bool {
    &&& t.len() >= 7
    &&& t.subrange(0, 5) == mnt_prefix()
    &&& is_drive_letter(t[5])
    &&& t[6] == '/'
    &&& forall|i: int| 5 <= i < t.len() ==> t[i] != '\\'
}

/// The subsystem equivalent of a mapped host path.
pub open spec fn sub_path_of(s: Seq<char>) -> Seq<char> {
    mnt_prefix() + seq![s[0]] + s.subrange(2, s.len() as int).map_values(
        |c: char| host_to_sub_char(c),
    )
}

/// The host equivalent of a mapped subsystem path.
pub open spec fn host_path_of(t: Seq<char>) -> Seq<char> {
    seq![t[5], ':'] + t.subrange(6, t.len() as int).map_values(|c: char| sub_to_host_char(c))
}

/// Translating a mapped host path yields a mapped subsystem path, and
/// translating that back yields the original path unchanged: the two
/// translations are a bijection on paths under the shared mount.
pub proof fn lemma_host_round_trip(s: Seq<char>)
    requires
        is_mapped_host_path(s),
    ensures
        is_mapped_sub_path(sub_path_of(s)),
        host_path_of(sub_path_of(s)) == s,
{
    let t = sub_path_of(s);
    let tail = s.subrange(2, s.len() as int).map_values(|c: char| host_to_sub_char(c));
    assert(t.len() == s.len() + 4);
    assert(t.subrange(0, 5) =~= mnt_prefix());
    assert(t[5] == s[0]);
    assert(t[6] == tail[0] && tail[0] == host_to_sub_char(s[2]));
    assert forall|i: int| 5 <= i < t.len() implies t[i] != '\\' by {
        if i >= 6 {
            assert(t[i] == host_to_sub_char(s[i - 4]));
        }
    }
    assert(is_mapped_sub_path(t));
    let back = host_path_of(t);
    assert(back.len() == s.len());
    assert forall|i: int| 0 <= i < s.len() implies back[i] == s[i] by {
        if i == 0 {
            assert(back[0] == t[5]);
        } else if i == 1 {
            assert(back[1] == ':');
        } else {
            assert(back[i] == sub_to_host_char(t.subrange(6, t.len() as int)[i - 2]));
            assert(t[i + 4] == host_to_sub_char(s[i]));
            assert(back[i] == sub_to_host_char(host_to_sub_char(s[i])));
        }
    }
    assert(back =~= s);
}

/// Translating a mapped subsystem path yields a mapped host path, and
/// translating that back yields the original path unchanged.
pub proof fn lemma_sub_round_trip(t: Seq<char>)
    requires
        is_mapped_sub_path(t),
    ensures
        is_mapped_host_path(host_path_of(t)),
        sub_path_of(host_path_of(t)) == t,
{
    let s = host_path_of(t);
    assert(s.len() == t.len() - 4);
    assert(s[0] == t[5]);
    assert(s[1] == ':');
    assert(s[2] == sub_to_host_char(t[6]));
    assert forall|i: int| 2 <= i < s.len() implies s[i] != '/' by {
        assert(s[i] == sub_to_host_char(t[i + 4]));
    }
    assert(is_mapped_host_path(s));
    let back = sub_path_of(s);
    assert(back.len() == t.len());
    assert forall|i: int| 0 <= i < t.len() implies back[i] == t[i] by {
        if i < 5 {
            assert(back[i] == mnt_prefix()[i]);
            assert(t.subrange(0, 5)[i] == t[i]);
        } else if i == 5 {
            assert(back[5] == s[0]);
        } else {
            assert(back[i] == host_to_sub_char(s.subrange(2, s.len() as int)[i - 6]));
            assert(s[i - 4] == sub_to_host_char(t[i]));
            assert(back[i] == host_to_sub_char(sub_to_host_char(t[i])));
        }
    }
    assert(back =~= t);
}

/// A path separator on either side.
pub open spec fn is_sep(c: char) -> bool {
    c == '/' || c == '\\'
}

/// The part of `s` after its last separator (all of `s` if it has none,
/// empty if it ends in a separator).
pub open spec fn after_last_sep(s: Seq<char>) -> Seq<char>
    decreases s.len(),
{
    if s.len() == 0 {
        s
    } else if is_sep(s[s.len() - 1]) {
        Seq::empty()
    } else {
        after_last_sep(s.drop_last()).push(s[s.len() - 1])
    }
}

/// The platform's executable suffix, stripped from a launcher's file name to
/// recover the linked command name.
pub open spec fn exe_suffix() -> Seq<char> {
    seq!['.', 'e', 'x', 'e']
}

/// `s` without a trailing executable suffix (unchanged if it has none).
pub open spec fn strip_exe(s: Seq<char>) -> Seq<char> {
    if s.len() >= 4 && s.subrange(s.len() - 4, s.len() as int) == exe_suffix() {
        s.subrange(0, s.len() - 4)
    } else {
        s
    }
}

/// What [`basename`] returns: the file stem of the last path component.
pub open spec fn basename_spec(s: Seq<char>) -> Seq<char> {
    strip_exe(after_last_sep(s))
}

/// If no separator occurs at or after position `k`, and `k` is either the
/// start or just past a separator, then the last component is the suffix
/// from `k` on.
proof fn lemma_after_last_sep_suffix(s: Seq<char>, k: int)
    requires
        0 <= k <= s.len(),
        k > 0 ==> is_sep(s[k - 1]),
        forall|i: int| k <= i < s.len() ==> !is_sep(s[i]),
    ensures
        after_last_sep(s) == s.subrange(k, s.len() as int),
    decreases s.len(),
{
    if s.len() == 0 {
        assert(s.subrange(0, 0) =~= s);
    } else if is_sep(s[s.len() - 1]) {
        assert(k == s.len());
        assert(s.subrange(k, s.len() as int) =~= Seq::<char>::empty());
    } else {
        assert(k < s.len());
        let s0 = s.drop_last();
        lemma_after_last_sep_suffix(s0, k);
        assert(after_last_sep(s) == s0.subrange(k, s0.len() as int).push(s[s.len() - 1]));
        assert(s0.subrange(k, s0.len() as int).push(s[s.len() - 1]) =~= s.subrange(
            k,
            s.len() as int,
        ));
    }
}

/// The name a launcher at `path` links: the file stem of the path's last
/// component, with the executable suffix stripped. An empty or
/// component-less input yields the empty name rather than a failure.
pub fn basename(path: &str) -> (r: String)
    ensures
        r@ == basename_spec(path@),
{
    let n = path.unicode_len();
    let mut start: usize = 0;
    let mut i: usize = 0;
    while i < n
        invariant
            i <= n,
            n == path@.len(),
            start <= i,
            start > 0 ==> is_sep(path@[start as int - 1]),
            forall|j: int| start <= j < i ==> !is_sep(path@[j]),
        decreases n - i,
    {
        let c = path.get_char(i);
        if c == '/' || c == '\\' {
            start = i + 1;
        }
        i = i + 1;
    }
    proof {
        lemma_after_last_sep_suffix(path@, start as int);
    }
    let comp = path.substring_char(start, n);
    let m = n - start;
    if m >= 4 && comp.get_char(m - 4) == '.' && comp.get_char(m - 3) == 'e' && comp.get_char(
        m - 2,
    ) == 'x' && comp.get_char(m - 1) == 'e' {
        proof {
            assert(comp@.subrange(m - 4, m as int) =~= exe_suffix());
        }
        let stem = comp.substring_char(0, m - 4);
        proof {
            assert(stem@ =~= basename_spec(path@));
        }
        String::from_str(stem)
    } else {
        proof {
            if m >= 4 && comp@.subrange(m - 4, m as int) == exe_suffix() {
                assert(comp@[m - 4] == comp@.subrange(m - 4, m as int)[0]);
                assert(comp@[m - 3] == comp@.subrange(m - 4, m as int)[1]);
                assert(comp@[m - 2] == comp@.subrange(m - 4, m as int)[2]);
                assert(comp@[m - 1] == comp@.subrange(m - 4, m as int)[3]);
            }
            assert(comp@ =~= basename_spec(path@));
        }
        String::from_str(comp)
    }
}

/// Converts a host path to its subsystem equivalent; fails with
/// [`LinkError::UnmappablePath`] exactly when the path is not under the
/// shared mount.
pub fn to_subsystem_path(host: &str) -> (r: Result<String, LinkError>)
    ensures
        r is Ok <==> is_mapped_host_path(host@),
        r is Ok ==> r->Ok_0@ == sub_path_of(host@),
        r is Err ==> r->Err_0 == LinkError::UnmappablePath,
{
    let n = host.unicode_len();
    if n < 3 {
        return Err(LinkError::UnmappablePath);
    }
    let c0 = host.get_char(0);
    if !((65 <= c0 as u32 && c0 as u32 <= 90) || (97 <= c0 as u32 && c0 as u32 <= 122)) {
        return Err(LinkError::UnmappablePath);
    }
    if host.get_char(1) != ':' {
        return Err(LinkError::UnmappablePath);
    }
    if host.get_char(2) != '\\' {
        return Err(LinkError::UnmappablePath);
    }
    let mut out = String::from_str("/mnt/");
    out.append(host.substring_char(0, 1));
    proof {
        reveal_strlit("/mnt/");
        assert("/mnt/"@ =~= mnt_prefix());
        assert(host@.subrange(0, 1) =~= seq![host@[0]]);
        assert(out@ =~= mnt_prefix() + seq![host@[0]]);
        assert(host@.subrange(2, 2) =~= Seq::<char>::empty());
        assert(host@.subrange(2, 2).map_values(|c: char| host_to_sub_char(c)) =~= Seq::<
            char,
        >::empty());
        assert(out@ =~= mnt_prefix() + seq![host@[0]] + host@.subrange(2, 2).map_values(
            |c: char| host_to_sub_char(c),
        ));
    }
    let mut i: usize = 2;
    while i < n
        invariant
            2 <= i <= n,
            n == host@.len(),
            forall|j: int| 2 <= j < i ==> host@[j] != '/',
            out@ == mnt_prefix() + seq![host@[0]] + host@.subrange(2, i as int).map_values(
                |c: char| host_to_sub_char(c),
            ),
        decreases n - i,
    {
        let c = host.get_char(i);
        if c == '/' {
            return Err(LinkError::UnmappablePath);
        }
        if c == '\\' {
            out.append("/");
            proof {
                reveal_strlit("/");
                assert("/"@ =~= seq!['/']);
            }
        } else {
            out.append(host.substring_char(i, i + 1));
            proof {
                assert(host@.subrange(i as int, i + 1) =~= seq![host@[i as int]]);
            }
        }
        proof {
            assert(host@.subrange(2, i + 1) =~= host@.subrange(2, i as int).push(
                host@[i as int],
            ));
            assert(host@.subrange(2, i + 1).map_values(|c: char| host_to_sub_char(c)) =~= host@
                .subrange(2, i as int).map_values(|c: char| host_to_sub_char(c)).push(
                host_to_sub_char(host@[i as int]),
            ));
            assert(out@ =~= mnt_prefix() + seq![host@[0]] + host@.subrange(2, i + 1).map_values(
                |c: char| host_to_sub_char(c),
            ));
        }
        i = i + 1;
    }
    proof {
        assert(host@.subrange(2, n as int) =~= host@.subrange(2, host@.len() as int));
    }
    Ok(out)
}

/// Converts a subsystem path back to its host equivalent; fails with
/// [`LinkError::UnmappablePath`] exactly when the path does not lie under
/// the shared mount.
pub fn to_host_path(sub: &str) -> (r: Result<String, LinkError>)
    ensures
        r is Ok <==> is_mapped_sub_path(sub@),
        r is Ok ==> r->Ok_0@ == host_path_of(sub@),
        r is Err ==> r->Err_0 == LinkError::UnmappablePath,
{
    let n = sub.unicode_len();
    if n < 7 {
        return Err(LinkError::UnmappablePath);
    }
    if sub.get_char(0) != '/' || sub.get_char(1) != 'm' || sub.get_char(2) != 'n'
        || sub.get_char(3) != 't' || sub.get_char(4) != '/' {
        proof {
            if sub@.subrange(0, 5) == mnt_prefix() {
                assert(sub@[0] == sub@.subrange(0, 5)[0]);
                assert(sub@[1] == sub@.subrange(0, 5)[1]);
                assert(sub@[2] == sub@.subrange(0, 5)[2]);
                assert(sub@[3] == sub@.subrange(0, 5)[3]);
                assert(sub@[4] == sub@.subrange(0, 5)[4]);
            }
        }
        return Err(LinkError::UnmappablePath);
    }
    proof {
        assert(sub@.subrange(0, 5) =~= mnt_prefix());
    }
    let c5 = sub.get_char(5);
    if !((65 <= c5 as u32 && c5 as u32 <= 90) || (97 <= c5 as u32 && c5 as u32 <= 122)) {
        return Err(LinkError::UnmappablePath);
    }
    if sub.get_char(6) != '/' {
        return Err(LinkError::UnmappablePath);
    }
    let mut out = String::new();
    out.append(sub.substring_char(5, 6));
    out.append(":");
    proof {
        reveal_strlit(":");
        assert(":"@ =~= seq![':']);
        assert(sub@.subrange(5, 6) =~= seq![sub@[5]]);
        assert(out@ =~= seq![sub@[5], ':']);
        assert(sub@.subrange(6, 6) =~= Seq::<char>::empty());
        assert(sub@.subrange(6, 6).map_values(|c: char| sub_to_host_char(c)) =~= Seq::<
            char,
        >::empty());
        assert(out@ =~= seq![sub@[5], ':'] + sub@.subrange(6, 6).map_values(
            |c: char| sub_to_host_char(c),
        ));
    }
    let mut i: usize = 6;
    while i < n
        invariant
            6 <= i <= n,
            n == sub@.len(),
            forall|j: int| 6 <= j < i ==> sub@[j] != '\\',
            out@ == seq![sub@[5], ':'] + sub@.subrange(6, i as int).map_values(
                |c: char| sub_to_host_char(c),
            ),
        decreases n - i,
    {
        let c = sub.get_char(i);
        if c == '\\' {
            return Err(LinkError::UnmappablePath);
        }
        if c == '/' {
            out.append("\\");
            proof {
                reveal_strlit("\\");
                assert("\\"@ =~= seq!['\\']);
            }
        } else {
            out.append(sub.substring_char(i, i + 1));
            proof {
                assert(sub@.subrange(i as int, i + 1) =~= seq![sub@[i as int]]);
            }
        }
        proof {
            assert(sub@.subrange(6, i + 1) =~= sub@.subrange(6, i as int).push(sub@[i as int]));
            assert(sub@.subrange(6, i + 1).map_values(|c: char| sub_to_host_char(c)) =~= sub@
                .subrange(6, i as int).map_values(|c: char| sub_to_host_char(c)).push(
                sub_to_host_char(sub@[i as int]),
            ));
            assert(out@ =~= seq![sub@[5], ':'] + sub@.subrange(6, i + 1).map_values(
                |c: char| sub_to_host_char(c),
            ));
        }
        i = i + 1;
    }
    proof {
        assert(sub@.subrange(6, n as int) =~= sub@.subrange(6, sub@.len() as int));
        assert(is_drive_letter(sub@[5]));
    }
    Ok(out)
}

} // verus!
