//! Locating Hyprland IPC sockets from the kernel's Unix socket table. A
//! pathname found there is only locator evidence: authority comes from the
//! peer credentials, the logind session binding and the protocol response,
//! which the caller checks for each candidate.
use vstd::prelude::*;
use vstd::utf8::encode_utf8;
use crate::observation::platform::PlatformProbeError;
use crate::path::{components, leading_cur_dir, path_absolute, path_components, paths_equal, same_path, starts_with_cur_dir};
use crate::text::{ascii_words, chars_of, lines, split_ascii_words, split_lines, string_of, utf8_bytes};

verus! {

/// File name of a Hyprland instance's IPC socket.
pub const HYPRLAND_SOCKET_NAME: &'static str = ".socket.sock";

/// Most candidate sockets a discovery considers.
pub const HYPRLAND_MAX_RUNTIME_ENTRIES: usize = 32;

pub open spec fn socket_name_bytes() -> Seq<u8> {
    seq![0x2eu8, 0x73, 0x6f, 0x63, 0x6b, 0x65, 0x74, 0x2e, 0x73, 0x6f, 0x63, 0x6b]
}

pub open spec fn hypr_bytes() -> Seq<u8> {
    seq![0x68u8, 0x79, 0x70, 0x72]
}

pub open spec fn signature_byte(b: u8) -> bool {
    (0x30 <= b <= 0x39) || (0x41 <= b <= 0x5a) || (0x61 <= b <= 0x7a) || b == 0x2e || b == 0x5f || b == 0x2d
}

/// A Hyprland instance signature as a directory name: one to 128 bytes of
/// ASCII letters, digits, `.`, `_` or `-`, and neither `.` nor `..`.
pub open spec fn safe_signature_bytes(s: Seq<u8>) -> bool {
    &&& 0 < s.len() <= 128
    &&& s != seq![0x2eu8]
    &&& s != seq![0x2eu8, 0x2eu8]
    &&& forall|i: int| 0 <= i < s.len() ==> signature_byte(#[trigger] s[i])
}

/// A socket path that can locate the IPC socket of an instance under
/// `runtime`: not an abstract socket, and, as a path,
/// `<runtime>/hypr/<signature>/.socket.sock` with a safe signature.
pub open spec fn socket_locator(p: Seq<u8>, runtime: Seq<u8>) -> bool {
    let c = path_components(p);
    &&& !(p.len() > 0 && p[0] == 0x40u8)
    &&& c.len() >= 2
    &&& c[c.len() - 1] == socket_name_bytes()
    &&& safe_signature_bytes(c[c.len() - 2])
    &&& path_absolute(p) == path_absolute(runtime)
    &&& leading_cur_dir(p) == leading_cur_dir(runtime)
    &&& c.take(c.len() - 2) == path_components(runtime).push(hypr_bytes())
}

/// A byte of an instance signature: an ASCII letter or digit, `.`, `_` or
/// `-`.
pub open spec fn instance_signature_byte(b: u8) -> bool {
    let c = b as char;
    ('0' <= c && c <= '9') || ('A' <= c && c <= 'Z') || ('a' <= c && c <= 'z') || c == '.' || c == '_' || c == '-'
}

/// Every Hyprland instance signature of one to 128 letters, digits, `.`,
/// `_` and `-` is accepted, other than `.` and `..`, and nothing else is;
/// so a path `<runtime>/hypr/<signature>/.socket.sock` locates an instance
/// socket exactly when its signature is such a name.
pub proof fn law_instance_signatures(p: Seq<u8>, runtime: Seq<u8>, sig: Seq<u8>)
    requires
        !(p.len() > 0 && p[0] as char == '@'),
        path_absolute(p) == path_absolute(runtime),
        leading_cur_dir(p) == leading_cur_dir(runtime),
        path_components(p) == path_components(runtime) + seq![hypr_bytes(), sig, socket_name_bytes()],
    ensures
        safe_signature_bytes(sig) <==> (1 <= sig.len() <= 128 && sig.map_values(|b: u8| b as char) != seq!['.']
            && sig.map_values(|b: u8| b as char) != seq!['.', '.']
            && forall|i: int| 0 <= i < sig.len() ==> instance_signature_byte(#[trigger] sig[i])),
        socket_locator(p, runtime) <==> safe_signature_bytes(sig),
{
    let c = path_components(p);
    let rc = path_components(runtime);
    assert(c.len() == rc.len() + 3);
    assert(c[c.len() - 1] == socket_name_bytes());
    assert(c[c.len() - 2] == sig);
    assert(c.take(c.len() - 2) =~= rc.push(hypr_bytes()));
    assert forall|i: int| 0 <= i < sig.len() implies (instance_signature_byte(#[trigger] sig[i]) <==> signature_byte(sig[i])) by {
        let b = sig[i];
        assert((b as char) as int == b as int);
    }
    let cs = sig.map_values(|b: u8| b as char);
    assert((sig == seq![0x2eu8]) <==> (cs == seq!['.'])) by {
        if cs =~= seq!['.'] {
            assert(sig.len() == 1 && cs[0] == sig[0] as char && cs[0] == '.');
            assert((sig[0] as char) as int == sig[0] as int);
            assert(sig =~= seq![0x2eu8]);
        }
        if sig == seq![0x2eu8] {
            assert(cs =~= seq!['.']);
        }
    }
    assert((sig == seq![0x2eu8, 0x2eu8]) <==> (cs == seq!['.', '.'])) by {
        if cs =~= seq!['.', '.'] {
            assert(sig.len() == 2 && cs[0] == sig[0] as char && cs[1] == sig[1] as char && cs[0] == '.' && cs[1] == '.');
            assert((sig[0] as char) as int == sig[0] as int);
            assert((sig[1] as char) as int == sig[1] as int);
            assert(sig =~= seq![0x2eu8, 0x2eu8]);
        }
        if sig == seq![0x2eu8, 0x2eu8] {
            assert(cs =~= seq!['.', '.']);
        }
    }
}

/// Candidates from the socket-table rows `ls`, after `acc`: each row's
/// eighth ASCII-whitespace-separated field that locates a socket and names
/// a path not yet found; `None` once more than the bound are found.
pub open spec fn socket_candidates(ls: Seq<Seq<char>>, runtime: Seq<u8>, acc: Seq<Seq<u8>>) -> Option<Seq<Seq<u8>>>
    decreases ls.len(),
{
    if ls.len() == 0 {
        Some(acc)
    } else {
        let ws = ascii_words(ls[0]);
        if ws.len() > 7 && socket_locator(encode_utf8(ws[7]), runtime) && !(exists|j: int|
            0 <= j < acc.len() && same_path(#[trigger] acc[j], encode_utf8(ws[7]))) {
            if acc.len() + 1 > HYPRLAND_MAX_RUNTIME_ENTRIES {
                None
            } else {
                socket_candidates(ls.skip(1), runtime, acc.push(encode_utf8(ws[7])))
            }
        } else {
            socket_candidates(ls.skip(1), runtime, acc)
        }
    }
}

/// The candidate socket paths of a `/proc/net/unix` table, whose first line
/// is its header.
pub open spec fn hyprland_candidates(table: Seq<char>, runtime: Seq<u8>) -> Option<Seq<Seq<u8>>> {
    if lines(table).len() == 0 {
        Some(seq![])
    } else {
        socket_candidates(lines(table).skip(1), runtime, seq![])
    }
}

fn safe_signature(s: &Vec<u8>) -> (r: bool)
    ensures
        r == safe_signature_bytes(s@),
{
    if s.len() == 0 || s.len() > 128 {
        return false;
    }
    if s.len() == 1 && s[0] == 0x2eu8 {
        assert(s@ =~= seq![0x2eu8]);
        return false;
    }
    if s.len() == 2 && s[0] == 0x2eu8 && s[1] == 0x2eu8 {
        assert(s@ =~= seq![0x2eu8, 0x2eu8]);
        return false;
    }
    let mut i: usize = 0;
    while i < s.len()
        invariant
            i <= s@.len(),
            forall|j: int| 0 <= j < i ==> signature_byte(#[trigger] s@[j]),
        decreases s@.len() - i,
    {
        let b = s[i];
        if !((0x30 <= b && b <= 0x39) || (0x41 <= b && b <= 0x5a) || (0x61 <= b && b <= 0x7a) || b == 0x2e || b == 0x5f
            || b == 0x2d) {
            return false;
        }
        i = i + 1;
    }
    proof {
        if s@ == seq![0x2eu8] {
            assert(s@.len() == 1);
        }
        if s@ == seq![0x2eu8, 0x2eu8] {
            assert(s@.len() == 2);
        }
    }
    true
}

fn bytes_equal(a: &Vec<u8>, b: &[u8]) -> (r: bool)
    ensures
        r == (a@ == b@),
{
    if a.len() != b.len() {
        return false;
    }
    let mut i: usize = 0;
    while i < a.len()
        invariant
            a@.len() == b@.len(),
            i <= a@.len(),
            forall|j: int| 0 <= j < i ==> a@[j] == b@[j],
        decreases a@.len() - i,
    {
        if a[i] != b[i] {
            return false;
        }
        i = i + 1;
    }
    assert(a@ =~= b@);
    true
}

/// `c` ends with the instance directory and socket name under `root`.
fn under_root(c: &Vec<Vec<u8>>, root: &Vec<Vec<u8>>) -> (r: bool)
    ensures
        r == (c@.len() >= 2 && c@.map_values(|v: Vec<u8>| v@).take(c@.len() - 2) == root@.map_values(|v: Vec<u8>| v@)),
{
    let ghost cv = c@.map_values(|v: Vec<u8>| v@);
    let ghost rv = root@.map_values(|v: Vec<u8>| v@);
    if c.len() < 2 || c.len() - 2 != root.len() {
        proof {
            if c@.len() >= 2 {
                assert(cv.take(c@.len() - 2).len() != rv.len());
            }
        }
        return false;
    }
    let n = c.len() - 2;
    let mut i: usize = 0;
    while i < n
        invariant
            n == root@.len(),
            n + 2 == c@.len(),
            i <= n,
            cv == c@.map_values(|v: Vec<u8>| v@),
            rv == root@.map_values(|v: Vec<u8>| v@),
            forall|j: int| 0 <= j < i ==> cv[j] == rv[j],
        decreases n - i,
    {
        if !bytes_equal(&c[i], root[i].as_slice()) {
            assert(cv.take(n as int)[i as int] != rv[i as int]);
            return false;
        }
        i = i + 1;
    }
    assert(cv.take(n as int) =~= rv);
    true
}

/// Whether path `p`, with components `c`, locates a socket under `runtime`.
fn locates_socket(p: &Vec<u8>, c: &Vec<Vec<u8>>, root: &Vec<Vec<u8>>, runtime: &[u8]) -> (r: bool)
    requires
        c@.map_values(|v: Vec<u8>| v@) == path_components(p@),
        root@.map_values(|v: Vec<u8>| v@) == path_components(runtime@).push(hypr_bytes()),
    ensures
        r == socket_locator(p@, runtime@),
{
    let ghost cv = c@.map_values(|v: Vec<u8>| v@);
    if p.len() > 0 && p[0] == 0x40u8 {
        return false;
    }
    if c.len() < 2 {
        return false;
    }
    let name: [u8; 12] = [0x2e, 0x73, 0x6f, 0x63, 0x6b, 0x65, 0x74, 0x2e, 0x73, 0x6f, 0x63, 0x6b];
    assert(name@ =~= socket_name_bytes());
    assert(cv[c@.len() - 1] == c@[c@.len() - 1]@);
    assert(cv[c@.len() - 2] == c@[c@.len() - 2]@);
    if !bytes_equal(&c[c.len() - 1], &name) {
        return false;
    }
    if !safe_signature(&c[c.len() - 2]) {
        return false;
    }
    let p_abs = p.len() > 0 && p[0] == 0x2fu8;
    let r_abs = runtime.len() > 0 && runtime[0] == 0x2fu8;
    if p_abs != r_abs || starts_with_cur_dir(p.as_slice()) != starts_with_cur_dir(runtime) {
        return false;
    }
    under_root(c, root)
}

/// Whether `p` names the same path as one of `found`.
fn already_found(found: &Vec<Vec<u8>>, p: &Vec<u8>) -> (r: bool)
    ensures
        r == exists|j: int| 0 <= j < found@.len() && same_path(#[trigger] found@[j]@, p@),
{
    let mut j: usize = 0;
    while j < found.len()
        invariant
            j <= found@.len(),
            forall|k: int| 0 <= k < j ==> !same_path(#[trigger] found@[k]@, p@),
        decreases found@.len() - j,
    {
        if paths_equal(found[j].as_slice(), p.as_slice()) {
            return true;
        }
        j = j + 1;
    }
    false
}

/// The socket paths of the kernel's Unix socket table `socket_table` that
/// can locate a Hyprland IPC socket of the runtime directory
/// `runtime_path`, each distinct path once, in table order (see
/// [`hyprland_candidates`]).
pub fn hyprland_socket_candidates(socket_table: &str, runtime_path: &[u8]) -> (r: Result<Vec<Vec<u8>>, PlatformProbeError>)
    ensures
        match hyprland_candidates(socket_table@, runtime_path@) {
            Some(c) => r matches Ok(v) && v@.map_values(|x: Vec<u8>| x@) == c,
            None => r is Err,
        },
{
    let chars = chars_of(socket_table);
    let ls = split_lines(&chars);
    let ghost all = lines(socket_table@);
    let mut out: Vec<Vec<u8>> = Vec::new();
    if ls.len() == 0 {
        assert(out@.map_values(|x: Vec<u8>| x@) =~= Seq::<Seq<u8>>::empty());
        return Ok(out);
    }
    let mut root = components(runtime_path);
    let hypr: Vec<u8> = vec![0x68u8, 0x79, 0x70, 0x72];
    assert(hypr@ =~= hypr_bytes());
    let ghost rv0 = root@.map_values(|v: Vec<u8>| v@);
    root.push(hypr);
    assert(root@.map_values(|v: Vec<u8>| v@) =~= rv0.push(hypr_bytes()));
    let mut i: usize = 1;
    assert(out@.map_values(|x: Vec<u8>| x@) =~= Seq::<Seq<u8>>::empty());
    while i < ls.len()
        invariant
            1 <= i <= ls@.len(),
            all == lines(socket_table@),
            ls@.len() == all.len(),
            forall|k: int| 0 <= k < ls@.len() ==> #[trigger] ls@[k]@ == all[k],
            root@.map_values(|v: Vec<u8>| v@) == path_components(runtime_path@).push(hypr_bytes()),
            out@.len() <= HYPRLAND_MAX_RUNTIME_ENTRIES,
            hyprland_candidates(socket_table@, runtime_path@) == socket_candidates(all.skip(i as int), runtime_path@,
                out@.map_values(|x: Vec<u8>| x@)),
        decreases ls@.len() - i,
    {
        let ghost rest = all.skip(i as int);
        let ghost acc = out@.map_values(|x: Vec<u8>| x@);
        assert(rest[0] == all[i as int]);
        assert(rest.skip(1) =~= all.skip(i as int + 1));
        let ws = split_ascii_words(&ls[i]);
        let ghost wv = ws@.map_values(|v: Vec<char>| v@);
        let mut accepted = false;
        if ws.len() > 7 {
            let raw = utf8_bytes(&ws[7]);
            assert(wv[7] == ws@[7]@);
            let c = components(raw.as_slice());
            let located = locates_socket(&raw, &c, &root, runtime_path);
            let seen = already_found(&out, &raw);
            proof {
                assert(seen == exists|j: int| 0 <= j < acc.len() && same_path(#[trigger] acc[j], encode_utf8(wv[7]))) by {
                    if seen {
                        let j = choose|j: int| 0 <= j < out@.len() && same_path(#[trigger] out@[j]@, raw@);
                        assert(acc[j] == out@[j]@);
                    }
                    assert forall|j: int| 0 <= j < acc.len() && same_path(#[trigger] acc[j], encode_utf8(wv[7])) implies seen by {
                        assert(acc[j] == out@[j]@);
                    }
                }
            }
            if located && !seen {
                if out.len() + 1 > HYPRLAND_MAX_RUNTIME_ENTRIES {
                    return Err(PlatformProbeError::new(string_of(&chars_of(
                        "Hyprland kernel socket-table candidates exceeded the bounded entry budget",
                    ))));
                }
                let ghost before = acc;
                out.push(raw);
                assert(out@.map_values(|x: Vec<u8>| x@) =~= before.push(encode_utf8(wv[7])));
                accepted = true;
            }
        }
        proof {
            if !accepted {
                assert(out@.map_values(|x: Vec<u8>| x@) == acc);
            }
        }
        i = i + 1;
    }
    assert(all.skip(i as int).len() == 0);
    Ok(out)
}

} // verus!
