//! Linux side: the kernel module's parameters, where its build is cached, the
//! media players to pause, and what loading and clearing came to.
use vstd::prelude::*;
use sha2::Digest;
use crate::text::{
    chars_of, decimal, join_with, lemma_decimal_digits, lemma_split_join, push_char, push_decimal,
    split_on, string_views, trim, trimmed,
};

verus! {

broadcast use vstd::string::group_string_axioms;

/// The decimal forms of the codes, joined by commas.
pub open spec fn codes_text(v: Seq<u16>) -> Seq<char> {
    join_with(v.map_values(|c: u16| decimal(c as nat)), ',')
}

/// The codes as decimal numbers joined by commas, as the kernel module reads them.
pub fn str_codes(v: Vec<u16>) -> (s: String)
    ensures
        s@ == codes_text(v@),
{
    let ghost parts = v@.map_values(|c: u16| decimal(c as nat));
    let mut s = String::new();
    let mut i: usize = 0;
    while i < v.len()
        invariant
            i <= v@.len(),
            parts == v@.map_values(|c: u16| decimal(c as nat)),
            s@ == join_with(parts.take(i as int), ','),
        decreases v@.len() - i,
    {
        if i > 0 {
            push_char(&mut s, ',');
        }
        push_decimal(&mut s, v[i]);
        proof {
            let now = parts.take(i + 1);
            assert(now.drop_last() =~= parts.take(i as int));
            assert(now.last() == decimal(v@[i as int] as nat));
            if i == 0 {
                assert(Seq::<char>::empty() + decimal(v@[0] as nat) =~= decimal(v@[0] as nat));
                assert(join_with(now, ',') == now[0]);
            }
        }
        i += 1;
    }
    assert(parts.take(v@.len() as int) =~= parts);
    s
}

/// The parameter line the kernel module is loaded with.
pub open spec fn params_text(on: Seq<u16>, off: Seq<u16>) -> Seq<char> {
    "keys_on=\""@ + codes_text(on) + "\" keys_off=\""@ + codes_text(off) + "\""@
}

/// `keys_on="<start codes>" keys_off="<end codes>"`.
pub fn module_params(on: Vec<u16>, off: Vec<u16>) -> (s: String)
    ensures
        s@ == params_text(on@, off@),
{
    let a = str_codes(on);
    let b = str_codes(off);
    let mut s = String::new();
    s.append("keys_on=\"");
    s.append(a.as_str());
    s.append("\" keys_off=\"");
    s.append(b.as_str());
    s.append("\"");
    assert(s@ =~= params_text(on@, off@));
    s
}

/// The parameter line gives the module back its codes: split on commas, a
/// non-empty list of codes yields exactly their decimal forms, in order.
pub proof fn lemma_codes_text_splits(v: Seq<u16>)
    requires
        v.len() >= 1,
    ensures
        split_on(codes_text(v), ',') == v.map_values(|c: u16| decimal(c as nat)),
{
    let parts = v.map_values(|c: u16| decimal(c as nat));
    assert forall|i: int| 0 <= i < parts.len() implies !(#[trigger] parts[i]).contains(',') by {
        lemma_decimal_digits(v[i] as nat);
        if parts[i].contains(',') {
            let j = choose|j: int| 0 <= j < parts[i].len() && parts[i][j] == ',';
            assert('0' <= decimal(v[i] as nat)[j] <= '9');
        }
    }
    lemma_split_join(parts, ',');
}

// ---------------------------------------------------------------------------
// Paths
// ---------------------------------------------------------------------------

/// `base` with `part` appended as `PathBuf::push` does on Unix: an absolute
/// `part` replaces `base`; otherwise a `/` goes between them unless `base` is
/// empty or already ends in one.
pub open spec fn path_join(base: Seq<char>, part: Seq<char>) -> Seq<char> {
    if part.len() > 0 && part[0] == '/' {
        part
    } else if base.len() > 0 && base.last() != '/' {
        base.push('/') + part
    } else {
        base + part
    }
}

/// `base` joined with `part`, as `Path::join` gives it on Unix.
pub fn join_path(base: &str, part: &str) -> (r: String)
    ensures
        r@ == path_join(base@, part@),
{
    let pc = chars_of(part);
    if pc.len() > 0 && pc[0] == '/' {
        return part.to_owned();
    }
    let bc = chars_of(base);
    let mut r = base.to_owned();
    if bc.len() > 0 && bc[bc.len() - 1] != '/' {
        push_char(&mut r, '/');
    }
    r.append(part);
    r
}

/// The view of an optional string.
pub open spec fn opt_view(o: Option<String>) -> Option<Seq<char>> {
    match o {
        Some(s) => Some(s@),
        None => None,
    }
}

/// The home directory: `/home/<user>` for the user behind `sudo`, else `$HOME`,
/// else `/root`.
pub open spec fn home_dir(sudo_user: Option<Seq<char>>, home: Option<Seq<char>>) -> Seq<char> {
    match sudo_user {
        Some(u) => "/home/"@ + u,
        None => match home {
            Some(h) => h,
            None => "/root"@,
        },
    }
}

/// The configuration directory: `$XDG_CONFIG_HOME`, else `<home>/.config`.
pub open spec fn config_dir(xdg_config_home: Option<Seq<char>>, home: Seq<char>) -> Seq<char> {
    match xdg_config_home {
        Some(x) => x,
        None => path_join(home, ".config"@),
    }
}

/// The application's own directory under the configuration directory.
pub open spec fn app_dir_of(
    sudo_user: Option<Seq<char>>,
    home: Option<Seq<char>>,
    xdg_config_home: Option<Seq<char>>,
) -> Seq<char> {
    path_join(config_dir(xdg_config_home, home_dir(sudo_user, home)), "clkmonoff"@)
}

/// The application's data directory, from `$SUDO_USER`, `$HOME` and
/// `$XDG_CONFIG_HOME` (each `None` when unset or not Unicode).
pub fn app_path(sudo_user: Option<String>, home: Option<String>, xdg_config_home: Option<String>) -> (r: String)
    ensures
        r@ == app_dir_of(opt_view(sudo_user), opt_view(home), opt_view(xdg_config_home)),
{
    let home_s = match sudo_user {
        Some(u) => {
            let mut h = "/home/".to_owned();
            h.append(u.as_str());
            h
        },
        None => match home {
            Some(h) => h,
            None => "/root".to_owned(),
        },
    };
    let conf = match xdg_config_home {
        Some(x) => x,
        None => join_path(home_s.as_str(), ".config"),
    };
    join_path(conf.as_str(), "clkmonoff")
}

/// Where one build of the kernel module is kept.
pub struct ModulePaths {
    /// The directory of this kernel release and module source.
    pub dir: String,
    /// The built module.
    pub module_file: String,
    /// The scratch directory the module is built in.
    pub build_dir: String,
}

/// The directory of the module built for a kernel release from a given source:
/// `<app dir>/kmod/<release, trimmed>-<source hash>`.
pub open spec fn module_dir_of(app_dir: Seq<char>, kernel_release: Seq<char>, src_hash: Seq<char>) -> Seq<char> {
    path_join(path_join(app_dir, "kmod"@), trimmed(kernel_release) + "-"@ + src_hash)
}

/// Where the module for `kernel_release` (as `/proc/sys/kernel/osrelease` reads)
/// built from the source with hash `src_hash` is kept, built, and found.
pub fn module_paths(app_dir: &str, kernel_release: &str, src_hash: &str) -> (p: ModulePaths)
    ensures
        p.dir@ == module_dir_of(app_dir@, kernel_release@, src_hash@),
        p.module_file@ == path_join(p.dir@, "clk_linux_km.ko"@),
        p.build_dir@ == path_join(p.dir@, "build"@),
{
    let kmod = join_path(app_dir, "kmod");
    let mut leaf = trim(kernel_release);
    leaf.append("-");
    leaf.append(src_hash);
    let dir = join_path(kmod.as_str(), leaf.as_str());
    let module_file = join_path(dir.as_str(), "clk_linux_km.ko");
    let build_dir = join_path(dir.as_str(), "build");
    ModulePaths { dir, module_file, build_dir }
}

// ---------------------------------------------------------------------------
// Loading, clearing, media players
// ---------------------------------------------------------------------------

/// Whether loading the module went well: the call succeeded, or the module was
/// already loaded and that was acceptable.
pub fn load_accepted(loaded: bool, already_loaded: bool, exists_ok: bool) -> (r: bool)
    ensures
        r == (loaded || (exists_ok && already_loaded)),
{
    loaded || (exists_ok && already_loaded)
}

/// How removing the application's directory went.
#[derive(Clone, Copy, Debug, PartialEq, Eq, Structural)]
pub enum ClearOutcome {
    /// Removed: report "Cleared".
    Cleared,
    /// There was nothing to remove: report "Already clean".
    AlreadyClean,
    /// Removing failed otherwise: report the error.
    Failed,
}

/// The outcome of removing the application's directory.
pub fn clear_outcome(removed: bool, not_found: bool) -> (r: ClearOutcome)
    ensures
        r == (if removed {
            ClearOutcome::Cleared
        } else if not_found {
            ClearOutcome::AlreadyClean
        } else {
            ClearOutcome::Failed
        }),
{
    if removed {
        ClearOutcome::Cleared
    } else if not_found {
        ClearOutcome::AlreadyClean
    } else {
        ClearOutcome::Failed
    }
}

/// Whether a byte read from the module's device says the killswitch is on.
pub fn switch_engaged(byte: u8) -> (r: bool)
    ensures
        r == (byte != 0),
{
    byte != 0
}

/// The D-Bus names of MPRIS media players begin with this.
pub open spec fn mpris_prefix() -> Seq<char> {
    "org.mpris.MediaPlayer2."@
}

/// Whether `pre` begins `s`.
pub open spec fn starts_with(s: Seq<char>, pre: Seq<char>) -> bool {
    pre.len() <= s.len() && s.take(pre.len() as int) == pre
}

/// Whether a D-Bus name is an MPRIS media player's.
pub fn is_media_player(name: &str) -> (r: bool)
    ensures
        r == starts_with(name@, mpris_prefix()),
{
    let n = chars_of(name);
    let p = chars_of("org.mpris.MediaPlayer2.");
    if p.len() > n.len() {
        return false;
    }
    let mut i: usize = 0;
    while i < p.len()
        invariant
            p@ == mpris_prefix(),
            p@.len() <= n@.len(),
            n@ == name@,
            i <= p@.len(),
            forall|j: int| 0 <= j < i ==> n@[j] == p@[j],
        decreases p@.len() - i,
    {
        if n[i] != p[i] {
            assert(n@.take(p@.len() as int)[i as int] != p@[i as int]);
            return false;
        }
        i += 1;
    }
    assert(n@.take(p@.len() as int) =~= p@);
    true
}

/// The media players among the D-Bus names, in the order given: the ones to pause
/// when the killswitch goes on.
pub fn media_players(names: Vec<String>) -> (r: Vec<String>)
    ensures
        string_views(r@) == string_views(names@).filter(|n: Seq<char>| starts_with(n, mpris_prefix())),
{
    let ghost all = string_views(names@);
    let mut r: Vec<String> = Vec::new();
    let mut i: usize = 0;
    while i < names.len()
        invariant
            i <= names@.len(),
            all == string_views(names@),
            string_views(r@) == all.take(i as int).filter(|n: Seq<char>| starts_with(n, mpris_prefix())),
        decreases names@.len() - i,
    {
        let keep = is_media_player(names[i].as_str());
        proof {
            let now = all.take(i + 1);
            assert(now.drop_last() =~= all.take(i as int));
            assert(now.last() == names@[i as int]@);
            reveal_with_fuel(Seq::filter, 1);
        }
        if keep {
            r.push(names[i].clone());
            assert(string_views(r@) =~= all.take(i as int).filter(|n: Seq<char>| starts_with(n, mpris_prefix())).push(names@[i as int]@));
        } else {
            assert(string_views(r@) =~= all.take(i as int).filter(|n: Seq<char>| starts_with(n, mpris_prefix())));
        }
        i += 1;
    }
    assert(all.take(names@.len() as int) =~= all);
    r
}

// ---------------------------------------------------------------------------
// The module source's fingerprint
// ---------------------------------------------------------------------------

/// The SHA-256 digest of a byte sequence.
pub uninterp spec fn sha256_of(data: Seq<u8>) -> Seq<u8>;

/// The bytes of `hello world`.
pub open spec fn hello_world_bytes() -> Seq<u8> {
    seq![0x68u8, 0x65, 0x6c, 0x6c, 0x6f, 0x20, 0x77, 0x6f, 0x72, 0x6c, 0x64]
}

/// The SHA-256 digest of `hello world`.
pub open spec fn hello_world_digest() -> Seq<u8> {
    seq![
        0xb9u8, 0x4d, 0x27, 0xb9, 0x93, 0x4d, 0x3e, 0x08,
        0xa5, 0x2e, 0x52, 0xd7, 0xda, 0x7d, 0xab, 0xfa,
        0xc4, 0x84, 0xef, 0xe3, 0x7a, 0x53, 0x80, 0xee,
        0x90, 0x88, 0xf7, 0xac, 0xe2, 0xef, 0xcd, 0xe9,
    ]
}

/// sha2's `Sha256::digest`: the SHA-256 digest of all of `data`, 32 bytes long;
/// which bytes they are is named by `sha256_of`, and the one value stated is the
/// digest of `hello world` that sha2's own documentation gives.
#[verifier::external_body]
fn sha256(data: &[u8]) -> (d: Vec<u8>)
    ensures
        d@ == sha256_of(data@),
        d@.len() == 32,
        data@ == hello_world_bytes() ==> d@ == hello_world_digest(),
{
    sha2::Sha256::digest(data).to_vec()
}

/// The lower-case hexadecimal digit for `n` (`n < 16`).
pub open spec fn hex_digit(n: nat) -> char {
    if n < 10 {
        (n + 48) as char
    } else {
        (n + 87) as char
    }
}

/// Each byte as two lower-case hexadecimal digits, high half first.
pub open spec fn hex_lower(bytes: Seq<u8>) -> Seq<char>
    decreases bytes.len(),
{
    if bytes.len() == 0 {
        Seq::empty()
    } else {
        hex_lower(bytes.drop_last()) + seq![
            hex_digit((bytes.last() / 16) as nat),
            hex_digit((bytes.last() % 16) as nat),
        ]
    }
}

/// The bytes in lower-case hexadecimal, two digits each (`{:02x}`).
pub fn hex_string(bytes: &[u8]) -> (s: String)
    ensures
        s@ == hex_lower(bytes@),
{
    let mut s = String::new();
    let mut i: usize = 0;
    while i < bytes.len()
        invariant
            i <= bytes@.len(),
            s@ == hex_lower(bytes@.take(i as int)),
        decreases bytes@.len() - i,
    {
        let b = bytes[i];
        let hi = b / 16;
        let lo = b % 16;
        let ch: char = if hi < 10 { (hi + 48) as char } else { (hi + 87) as char };
        let cl: char = if lo < 10 { (lo + 48) as char } else { (lo + 87) as char };
        push_char(&mut s, ch);
        push_char(&mut s, cl);
        proof {
            let now = bytes@.take(i + 1);
            assert(now.drop_last() =~= bytes@.take(i as int));
            assert(now.last() == b);
            assert(hex_lower(now) =~= hex_lower(bytes@.take(i as int)).push(ch).push(cl));
        }
        i += 1;
    }
    assert(bytes@.take(bytes@.len() as int) =~= bytes@);
    s
}

/// The fingerprint of the module's source archive that names its build
/// directory: the archive's SHA-256 digest in lower-case hexadecimal.
pub fn source_hash(archive: &[u8]) -> (s: String)
    ensures
        s@ == hex_lower(sha256_of(archive@)),
        s@.len() == 64,
        forall|i: int| 0 <= i < s@.len() ==> is_hex_char(#[trigger] s@[i]),
{
    let d = sha256(archive);
    proof {
        lemma_hex_lower_shape(d@);
    }
    hex_string(d.as_slice())
}

/// A lower-case hexadecimal digit: `0`..`9` or `a`..`f`.
pub open spec fn is_hex_char(c: char) -> bool {
    ('0' <= c <= '9') || ('a' <= c <= 'f')
}

/// Hexadecimal text has two digits per byte, each a lower-case hexadecimal digit.
pub proof fn lemma_hex_lower_shape(bytes: Seq<u8>)
    ensures
        hex_lower(bytes).len() == 2 * bytes.len(),
        forall|i: int| 0 <= i < hex_lower(bytes).len() ==> is_hex_char(#[trigger] hex_lower(bytes)[i]),
    decreases bytes.len(),
{
    if bytes.len() > 0 {
        let init = bytes.drop_last();
        lemma_hex_lower_shape(init);
        let h = hex_lower(bytes);
        let hi = hex_lower(init);
        assert forall|i: int| 0 <= i < h.len() implies is_hex_char(#[trigger] h[i]) by {
            if i < hi.len() {
                assert(h[i] == hi[i]);
            }
        }
    }
}

proof fn lemma_hex_digit_injective(a: nat, b: nat)
    requires
        a < 16,
        b < 16,
        hex_digit(a) == hex_digit(b),
    ensures
        a == b,
{
}

/// Hexadecimal text tells its bytes apart: two byte sequences with the same
/// text are the same.
pub proof fn lemma_hex_lower_injective(x: Seq<u8>, y: Seq<u8>)
    requires
        hex_lower(x) == hex_lower(y),
    ensures
        x == y,
    decreases x.len(),
{
    lemma_hex_lower_shape(x);
    lemma_hex_lower_shape(y);
    if x.len() > 0 {
        let (hx, hy) = (hex_lower(x), hex_lower(y));
        let (px, py) = (hex_lower(x.drop_last()), hex_lower(y.drop_last()));
        lemma_hex_lower_shape(x.drop_last());
        lemma_hex_lower_shape(y.drop_last());
        assert(hx[hx.len() - 2] == hex_digit((x.last() / 16) as nat));
        assert(hy[hy.len() - 2] == hex_digit((y.last() / 16) as nat));
        assert(hx[hx.len() - 1] == hex_digit((x.last() % 16) as nat));
        assert(hy[hy.len() - 1] == hex_digit((y.last() % 16) as nat));
        lemma_hex_digit_injective((x.last() / 16) as nat, (y.last() / 16) as nat);
        lemma_hex_digit_injective((x.last() % 16) as nat, (y.last() % 16) as nat);
        assert(x.last() == y.last());
        assert(px =~= hx.subrange(0, hx.len() - 2));
        assert(py =~= hy.subrange(0, hy.len() - 2));
        lemma_hex_lower_injective(x.drop_last(), y.drop_last());
        assert(x =~= x.drop_last().push(x.last()));
        assert(y =~= y.drop_last().push(y.last()));
    }
}

/// Two archives share a fingerprint exactly when the SHA-256 digests of the
/// whole archives are the same: the fingerprint loses nothing of the digest.
pub proof fn lemma_fingerprint_is_digest(a: Seq<u8>, b: Seq<u8>)
    ensures
        (hex_lower(sha256_of(a)) == hex_lower(sha256_of(b))) == (sha256_of(a) == sha256_of(b)),
{
    if hex_lower(sha256_of(a)) == hex_lower(sha256_of(b)) {
        lemma_hex_lower_injective(sha256_of(a), sha256_of(b));
    }
}

} // verus!
