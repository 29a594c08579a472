//! System probing: normalizing PCI listings, kernel driver bindings,
//! secure-boot state and well-known system files into structured facts.
//!
//! Every function takes the raw probe output as a plain value (`None` when
//! the underlying tool is absent or failed) and is fail-soft: a missing or
//! malformed input yields the documented default, never an error.

use vstd::prelude::*;

use crate::strutil::{
    contains_seq, fields_seq, find_seq_from, find_sub_from, lines_seq, replace_seq, replace_str,
    split_fields, split_lines, split_seq, split_str, str_contains, str_eq, str_starts_with,
    trim_seq, trim_str,
};

verus! {

/// GPU identity and driver facts, as far as the probes could tell.
#[derive(Debug, Clone)]
pub struct GpuInfo {
    pub vendor: String,
    pub model: String,
    pub driver_in_use: String,
    pub secure_boot: bool,
}

/// OS identity parsed from the OS release file.
#[derive(Debug, Clone)]
pub struct OsInfo {
    pub id: String,
    pub version: String,
    pub name: String,
}

/// Immutable snapshot of the probed system facts.
#[derive(Debug, Clone)]
pub struct SystemInfo {
    pub gpu: GpuInfo,
    pub cpu: String,
    pub ram: String,
    pub distro: String,
    pub kernel: String,
    pub display_server: String,
}

/// Raw outputs of the individual system probes, `None` where the underlying
/// tool or file was unavailable. Gathered by the caller, consumed here.
#[derive(Debug, Clone, Default)]
pub struct ProbeOutputs {
    pub lspci_vmm: Option<String>,
    pub lspci_k: Option<String>,
    pub mokutil_state: Option<String>,
    pub cpuinfo: Option<String>,
    pub free_output: Option<String>,
    pub os_release: Option<String>,
    pub uname_release: Option<String>,
    pub session_type: Option<String>,
}

/// The view of an optional probe output.
pub open spec fn view_opt(o: Option<&str>) -> Option<Seq<char>> {
    match o {
        Some(s) => Some(s@),
        None => None,
    }
}

/// A PCI device block qualifies when it mentions a display-class device.
pub open spec fn is_gpu_block(b: Seq<char>) -> bool {
    ||| contains_seq(b, "VGA"@)
    ||| contains_seq(b, "3D controller"@)
    ||| contains_seq(b, "Display controller"@)
}

/// Key and value of a `Key: Value` line, both trimmed; `None` without a colon.
pub open spec fn line_colon_kv(l: Seq<char>) -> Option<(Seq<char>, Seq<char>)> {
    let i = find_seq_from(l, ":"@, 0);
    if i < 0 {
        None
    } else {
        Some((trim_seq(l.subrange(0, i)), trim_seq(l.subrange(i + 1, l.len() as int))))
    }
}

/// Value of the last line whose colon-separated key equals `key`.
pub open spec fn colon_field(ls: Seq<Seq<char>>, key: Seq<char>) -> Option<Seq<char>>
    decreases ls.len(),
{
    if ls.len() == 0 {
        None
    } else {
        match line_colon_kv(ls.last()) {
            Some(kv) => if kv.0 == key {
                Some(kv.1)
            } else {
                colon_field(ls.drop_last(), key)
            },
            None => colon_field(ls.drop_last(), key),
        }
    }
}

/// The `key` field of a PCI device block, empty when absent.
pub open spec fn block_field(b: Seq<char>, key: Seq<char>) -> Seq<char> {
    match colon_field(lines_seq(b), key) {
        Some(v) => v,
        None => Seq::empty(),
    }
}

/// Vendor/model scan over the PCI device blocks: the first qualifying
/// block's vendor and device become the provisional result; the scan stops
/// at the first block whose vendor names NVIDIA, AMD or Intel, in that
/// priority of matching.
pub open spec fn scan_blocks(bs: Seq<Seq<char>>, cur_vendor: Seq<char>, cur_model: Seq<char>) -> (
    Seq<char>,
    Seq<char>,
)
    decreases bs.len(),
{
    if bs.len() == 0 {
        (cur_vendor, cur_model)
    } else {
        let b = bs[0];
        if !is_gpu_block(b) {
            scan_blocks(bs.skip(1), cur_vendor, cur_model)
        } else {
            let vendor = block_field(b, "Vendor"@);
            let device = block_field(b, "Device"@);
            let nv = if cur_vendor == "Unknown"@ {
                vendor
            } else {
                cur_vendor
            };
            let nm = if cur_vendor == "Unknown"@ {
                device
            } else {
                cur_model
            };
            if contains_seq(vendor, "NVIDIA"@) {
                ("NVIDIA"@, device)
            } else if contains_seq(vendor, "Advanced Micro Devices"@) || contains_seq(
                vendor,
                "AMD"@,
            ) {
                ("AMD"@, device)
            } else if contains_seq(vendor, "Intel"@) {
                ("Intel"@, device)
            } else {
                scan_blocks(bs.skip(1), nv, nm)
            }
        }
    }
}

/// The known brand a device block's vendor names, if any: NVIDIA, else
/// AMD, else Intel, tested in that fixed order.
pub open spec fn block_brand(b: Seq<char>) -> Option<Seq<char>> {
    if !is_gpu_block(b) {
        None
    } else {
        let vendor = block_field(b, "Vendor"@);
        if contains_seq(vendor, "NVIDIA"@) {
            Some("NVIDIA"@)
        } else if contains_seq(vendor, "Advanced Micro Devices"@) || contains_seq(
            vendor,
            "AMD"@,
        ) {
            Some("AMD"@)
        } else if contains_seq(vendor, "Intel"@) {
            Some("Intel"@)
        } else {
            None
        }
    }
}

/// Whatever devices come before it and whatever provisional state the scan
/// carries, the first block whose vendor names a known brand decides the
/// result: its brand becomes the vendor and its device the model.
pub proof fn lemma_first_branded_block_wins(
    bs: Seq<Seq<char>>,
    cur_vendor: Seq<char>,
    cur_model: Seq<char>,
    j: int,
)
    requires
        0 <= j < bs.len(),
        block_brand(bs[j]) is Some,
        forall|k: int| 0 <= k < j ==> block_brand(#[trigger] bs[k]) is None,
    ensures
        scan_blocks(bs, cur_vendor, cur_model).0 == block_brand(bs[j])->Some_0,
        scan_blocks(bs, cur_vendor, cur_model).1 == block_field(bs[j], "Device"@),
    decreases j,
{
    if j == 0 {
    } else {
        assert(block_brand(bs[0]) is None);
        assert(bs.skip(1)[j - 1] == bs[j]);
        assert forall|k: int| 0 <= k < j - 1 implies block_brand(#[trigger] bs.skip(1)[k])
            is None by {
            assert(bs.skip(1)[k] == bs[k + 1]);
        }
        if !is_gpu_block(bs[0]) {
            lemma_first_branded_block_wins(bs.skip(1), cur_vendor, cur_model, j - 1);
        } else {
            let vendor = block_field(bs[0], "Vendor"@);
            let device = block_field(bs[0], "Device"@);
            let nv = if cur_vendor == "Unknown"@ {
                vendor
            } else {
                cur_vendor
            };
            let nm = if cur_vendor == "Unknown"@ {
                device
            } else {
                cur_model
            };
            lemma_first_branded_block_wins(bs.skip(1), nv, nm, j - 1);
        }
    }
}

/// Vendor and model derived from the device-listing probe, with the
/// placeholder pair when nothing was identified.
pub open spec fn gpu_vendor_model(o: Option<Seq<char>>) -> (Seq<char>, Seq<char>) {
    let scanned = match o {
        Some(s) => scan_blocks(split_seq(s, "\n\n"@), "Unknown"@, "Unknown"@),
        None => ("Unknown"@, "Unknown"@),
    };
    if scanned.0 == "Unknown"@ || scanned.0.len() == 0 {
        ("Sistem"@, "Grafik Bağdaştırıcısı"@)
    } else {
        scanned
    }
}

/// First "Kernel driver in use:" value at or after a display-controller
/// line, scanning the kernel-binding listing top to bottom.
pub open spec fn driver_from_lines(ls: Seq<Seq<char>>, armed: bool) -> Seq<char>
    decreases ls.len(),
{
    if ls.len() == 0 {
        "Unknown"@
    } else {
        let l = ls[0];
        let armed2 = armed || contains_seq(l, "VGA"@) || contains_seq(l, "3D controller"@);
        if armed2 && contains_seq(l, "Kernel driver in use:"@) {
            let i = find_seq_from(l, ":"@, 0);
            trim_seq(l.subrange(i + 1, l.len() as int))
        } else {
            driver_from_lines(ls.skip(1), armed2)
        }
    }
}

/// Kernel driver derived from the kernel-binding probe.
pub open spec fn driver_in_use_of(o: Option<Seq<char>>) -> Seq<char> {
    match o {
        Some(s) => driver_from_lines(lines_seq(s), false),
        None => "Unknown"@,
    }
}

/// Secure-boot state derived from the secure-boot probe.
pub open spec fn secure_boot_of(o: Option<Seq<char>>) -> bool {
    match o {
        Some(s) => contains_seq(s, "SecureBoot enabled"@),
        None => false,
    }
}

/// Exec counterpart of `is_gpu_block`.
fn is_gpu_block_str(b: &str) -> (r: bool)
    ensures
        r == is_gpu_block(b@),
{
    str_contains(b, "VGA") || str_contains(b, "3D controller") || str_contains(
        b,
        "Display controller",
    )
}

/// Exec counterpart of `block_field`.
fn block_field_str(b: &str, key: &str) -> (r: String)
    ensures
        r@ == block_field(b@, key@),
{
    let ls = split_lines(b);
    let ghost dv = ls.deep_view();
    let mut idx = ls.len();
    proof {
        assert(dv.take(idx as int) =~= dv);
    }
    while idx > 0
        invariant
            0 <= idx <= ls@.len(),
            dv == ls.deep_view(),
            dv == lines_seq(b@),
            colon_field(dv, key@) == colon_field(dv.take(idx as int), key@),
        decreases idx,
    {
        proof {
            assert(dv.take(idx as int).last() == dv[idx as int - 1]);
            assert(dv.take(idx as int).drop_last() =~= dv.take(idx as int - 1));
        }
        let line = ls[idx - 1].as_str();
        proof {
            reveal_strlit(":");
            crate::strutil::lemma_find_seq_from(line@, ":"@, 0);
        }
        match find_sub_from(line, ":", 0) {
            Some(i) => {
                let llen = line.unicode_len();
                let k = trim_str(line.substring_char(0, i));
                if str_eq(k, key) {
                    let val = trim_str(line.substring_char(i + 1, llen));
                    return val.to_owned();
                }
            },
            None => {},
        }
        idx = idx - 1;
    }
    proof {
        assert(colon_field(dv.take(0), key@) is None);
    }
    String::new()
}

/// Detect GPU identity, the kernel driver in use, and secure-boot state
/// from the three probe outputs. Fail-soft: a missing probe leaves the
/// corresponding fields at their defaults.
pub fn detect_gpu(
    lspci_vmm: Option<&str>,
    lspci_k: Option<&str>,
    mokutil_state: Option<&str>,
) -> (info: GpuInfo)
    ensures
        info.vendor@ == gpu_vendor_model(view_opt(lspci_vmm)).0,
        info.model@ == gpu_vendor_model(view_opt(lspci_vmm)).1,
        info.driver_in_use@ == driver_in_use_of(view_opt(lspci_k)),
        info.secure_boot == secure_boot_of(view_opt(mokutil_state)),
{
    let mut vendor: String = String::from_str("Unknown");
    let mut model: String = String::from_str("Unknown");

    if let Some(out) = lspci_vmm {
        proof {
            reveal_strlit("\n\n");
        }
        let blocks = split_str(out, "\n\n");
        let ghost dv = blocks.deep_view();
        let n = blocks.len();
        let mut i: usize = 0;
        let mut stopped = false;
        proof {
            assert(dv.skip(0) =~= dv);
        }
        while i < n && !stopped
            invariant
                0 <= i <= n,
                n == blocks@.len(),
                dv == blocks.deep_view(),
                !stopped ==> scan_blocks(dv, "Unknown"@, "Unknown"@) == scan_blocks(
                    dv.skip(i as int),
                    vendor@,
                    model@,
                ),
                stopped ==> scan_blocks(dv, "Unknown"@, "Unknown"@) == (vendor@, model@),
            decreases n - i,
        {
            proof {
                assert(dv.skip(i as int)[0] == dv[i as int]);
                assert(dv.skip(i as int).skip(1) =~= dv.skip(i as int + 1));
            }
            let b = blocks[i].as_str();
            if is_gpu_block_str(b) {
                let vend = block_field_str(b, "Vendor");
                let dev = block_field_str(b, "Device");
                if str_eq(vendor.as_str(), "Unknown") {
                    vendor = vend.clone();
                    model = dev.clone();
                }
                if str_contains(vend.as_str(), "NVIDIA") {
                    vendor = String::from_str("NVIDIA");
                    model = dev;
                    stopped = true;
                } else if str_contains(vend.as_str(), "Advanced Micro Devices") || str_contains(
                    vend.as_str(),
                    "AMD",
                ) {
                    vendor = String::from_str("AMD");
                    model = dev;
                    stopped = true;
                } else if str_contains(vend.as_str(), "Intel") {
                    vendor = String::from_str("Intel");
                    model = dev;
                    stopped = true;
                }
            }
            i = i + 1;
        }
        proof {
            if !stopped {
                assert(dv.skip(n as int) =~= Seq::<Seq<char>>::empty());
            }
        }
    }

    if str_eq(vendor.as_str(), "Unknown") || vendor.as_str().unicode_len() == 0 {
        vendor = String::from_str("Sistem");
        model = String::from_str("Grafik Bağdaştırıcısı");
    }

    let mut driver: String = String::from_str("Unknown");
    if let Some(out) = lspci_k {
        driver = driver_in_use_str(out);
    }

    let mut secure_boot = false;
    if let Some(out) = mokutil_state {
        secure_boot = str_contains(out, "SecureBoot enabled");
    }

    GpuInfo { vendor, model, driver_in_use: driver, secure_boot }
}

/// Exec counterpart of `driver_from_lines` over a whole listing.
fn driver_in_use_str(out: &str) -> (r: String)
    ensures
        r@ == driver_from_lines(lines_seq(out@), false),
{
    let ls = split_lines(out);
    let ghost dv = ls.deep_view();
    let n = ls.len();
    let mut i: usize = 0;
    let mut armed = false;
    proof {
        assert(dv.skip(0) =~= dv);
    }
    while i < n
        invariant
            0 <= i <= n,
            n == ls@.len(),
            dv == ls.deep_view(),
            dv == lines_seq(out@),
            driver_from_lines(dv, false) == driver_from_lines(dv.skip(i as int), armed),
        decreases n - i,
    {
        proof {
            assert(dv.skip(i as int)[0] == dv[i as int]);
            assert(dv.skip(i as int).skip(1) =~= dv.skip(i as int + 1));
        }
        let line = ls[i].as_str();
        if str_contains(line, "VGA") || str_contains(line, "3D controller") {
            armed = true;
        }
        if armed && str_contains(line, "Kernel driver in use:") {
            proof {
                reveal_strlit("Kernel driver in use:");
                reveal_strlit(":");
                let l = dv[i as int];
                let k = choose|k: int| crate::strutil::match_at(l, "Kernel driver in use:"@, k);
                assert(l.subrange(k, k + 21)[20] == ':');
                assert(l.subrange(k + 20, k + 21) =~= ":"@);
                assert(crate::strutil::match_at(l, ":"@, k + 20));
                crate::strutil::lemma_find_seq_from(l, ":"@, 0);
            }
            match find_sub_from(line, ":", 0) {
                Some(ci) => {
                    let llen = line.unicode_len();
                    let val = trim_str(line.substring_char(ci + 1, llen));
                    return val.to_owned();
                },
                None => {
                    proof {
                        assert(false);
                    }
                },
            }
        }
        i = i + 1;
    }
    proof {
        assert(dv.skip(n as int) =~= Seq::<Seq<char>>::empty());
    }
    String::from_str("Unknown")
}

/// `s` without leading and trailing double-quote characters.
pub open spec fn trim_quotes(s: Seq<char>) -> Seq<char>
    decreases s.len(),
{
    if s.len() > 0 && s[0] == '"' {
        trim_quotes(s.skip(1))
    } else if s.len() > 0 && s.last() == '"' {
        trim_quotes(s.drop_last())
    } else {
        s
    }
}

/// Key and value of a `KEY=VALUE` line: the key as written, the value with
/// surrounding quotes removed; `None` without an equals sign.
pub open spec fn line_eq_kv(l: Seq<char>) -> Option<(Seq<char>, Seq<char>)> {
    let i = find_seq_from(l, "="@, 0);
    if i < 0 {
        None
    } else {
        Some((l.subrange(0, i), trim_quotes(l.subrange(i + 1, l.len() as int))))
    }
}

/// Value of the last line whose `KEY=VALUE` key equals `key`.
pub open spec fn eq_field(ls: Seq<Seq<char>>, key: Seq<char>) -> Option<Seq<char>>
    decreases ls.len(),
{
    if ls.len() == 0 {
        None
    } else {
        match line_eq_kv(ls.last()) {
            Some(kv) => if kv.0 == key {
                Some(kv.1)
            } else {
                eq_field(ls.drop_last(), key)
            },
            None => eq_field(ls.drop_last(), key),
        }
    }
}

/// An OS release field, with its fallback when the file or key is absent.
pub open spec fn os_field_or(o: Option<Seq<char>>, key: Seq<char>, dflt: Seq<char>) -> Seq<char> {
    match o {
        Some(s) => match eq_field(lines_seq(s), key) {
            Some(v) => v,
            None => dflt,
        },
        None => dflt,
    }
}

/// Exec lookup of the last `KEY=VALUE` line for `key`.
fn eq_field_str(ls: &Vec<String>, key: &str) -> (r: Option<String>)
    ensures
        match r {
            Some(v) => eq_field(ls.deep_view(), key@) == Some(v@),
            None => eq_field(ls.deep_view(), key@) is None,
        },
{
    let ghost dv = ls.deep_view();
    let mut idx = ls.len();
    proof {
        assert(dv.take(idx as int) =~= dv);
    }
    while idx > 0
        invariant
            0 <= idx <= ls@.len(),
            dv == ls.deep_view(),
            eq_field(dv, key@) == eq_field(dv.take(idx as int), key@),
        decreases idx,
    {
        proof {
            assert(dv.take(idx as int).last() == dv[idx as int - 1]);
            assert(dv.take(idx as int).drop_last() =~= dv.take(idx as int - 1));
        }
        let line = ls[idx - 1].as_str();
        proof {
            reveal_strlit("=");
            crate::strutil::lemma_find_seq_from(line@, "="@, 0);
        }
        match find_sub_from(line, "=", 0) {
            Some(i) => {
                let llen = line.unicode_len();
                let k = line.substring_char(0, i);
                if str_eq(k, key) {
                    let val = trim_quotes_str(line.substring_char(i + 1, llen));
                    return Some(val.to_owned());
                }
            },
            None => {},
        }
        idx = idx - 1;
    }
    proof {
        assert(eq_field(dv.take(0), key@) is None);
    }
    None
}

/// Exec counterpart of `trim_quotes`.
fn trim_quotes_str<'a>(s: &'a str) -> (r: &'a str)
    ensures
        r@ == trim_quotes(s@),
{
    let mut start: usize = 0;
    let mut end = s.unicode_len();
    proof {
        assert(s@.subrange(0, s@.len() as int) =~= s@);
    }
    while start < end && (s.get_char(start) == '"' || s.get_char(end - 1) == '"')
        invariant
            0 <= start <= end <= s@.len(),
            trim_quotes(s@) == trim_quotes(s@.subrange(start as int, end as int)),
        decreases end - start,
    {
        if s.get_char(start) == '"' {
            proof {
                assert(s@.subrange(start as int, end as int).skip(1) =~= s@.subrange(
                    start as int + 1,
                    end as int,
                ));
            }
            start = start + 1;
        } else {
            proof {
                assert(s@.subrange(start as int, end as int).drop_last() =~= s@.subrange(
                    start as int,
                    end as int - 1,
                ));
            }
            end = end - 1;
        }
    }
    proof {
        assert(trim_quotes(s@.subrange(start as int, end as int)) == s@.subrange(
            start as int,
            end as int,
        ));
    }
    s.substring_char(start, end)
}

/// Parse the OS release file contents into OS identity, with the fixed
/// defaults when the file or a key is missing. Never an error.
pub fn detect_os(contents: Option<&str>) -> (info: OsInfo)
    ensures
        info.id@ == os_field_or(view_opt(contents), "ID"@, "linux"@),
        info.version@ == os_field_or(view_opt(contents), "VERSION_ID"@, "unknown"@),
        info.name@ == os_field_or(view_opt(contents), "PRETTY_NAME"@, "Linux"@),
{
    match contents {
        None => OsInfo {
            id: String::from_str("linux"),
            version: String::from_str("unknown"),
            name: String::from_str("Linux"),
        },
        Some(s) => {
            let ls = split_lines(s);
            let id = match eq_field_str(&ls, "ID") {
                Some(v) => v,
                None => String::from_str("linux"),
            };
            let version = match eq_field_str(&ls, "VERSION_ID") {
                Some(v) => v,
                None => String::from_str("unknown"),
            };
            let name = match eq_field_str(&ls, "PRETTY_NAME") {
                Some(v) => v,
                None => String::from_str("Linux"),
            };
            OsInfo { id, version, name }
        },
    }
}

/// Package-manager family of a distribution id; `None` when unmapped.
pub open spec fn package_manager_of(id: Seq<char>) -> Option<Seq<char>> {
    if id == "fedora"@ || id == "rhel"@ || id == "centos"@ || id == "rocky"@ || id
        == "almalinux"@ {
        Some("dnf"@)
    } else if id == "ubuntu"@ || id == "debian"@ || id == "linuxmint"@ || id == "pop"@ {
        Some("apt"@)
    } else if id == "arch"@ || id == "manjaro"@ || id == "endeavouros"@ {
        Some("pacman"@)
    } else if id == "opensuse"@ || id == "sles"@ || id == "opensuse-leap"@ || id
        == "opensuse-tumbleweed"@ {
        Some("zypper"@)
    } else {
        None
    }
}

/// The package manager of the detected OS, by the fixed id mapping.
pub fn get_package_manager(os: &OsInfo) -> (r: Option<&'static str>)
    ensures
        match r {
            Some(s) => package_manager_of(os.id@) == Some(s@),
            None => package_manager_of(os.id@) is None,
        },
{
    let id = os.id.as_str();
    if str_eq(id, "fedora") || str_eq(id, "rhel") || str_eq(id, "centos") || str_eq(id, "rocky")
        || str_eq(id, "almalinux") {
        Some("dnf")
    } else if str_eq(id, "ubuntu") || str_eq(id, "debian") || str_eq(id, "linuxmint") || str_eq(
        id,
        "pop",
    ) {
        Some("apt")
    } else if str_eq(id, "arch") || str_eq(id, "manjaro") || str_eq(id, "endeavouros") {
        Some("pacman")
    } else if str_eq(id, "opensuse") || str_eq(id, "sles") || str_eq(id, "opensuse-leap")
        || str_eq(id, "opensuse-tumbleweed") {
        Some("zypper")
    } else {
        None
    }
}

/// CPU model name: the value of the first "model name" line with a colon.
pub open spec fn cpu_from_lines(ls: Seq<Seq<char>>) -> Seq<char>
    decreases ls.len(),
{
    if ls.len() == 0 {
        "Unknown"@
    } else {
        let l = ls[0];
        if "model name"@.is_prefix_of(l) && find_seq_from(l, ":"@, 0) >= 0 {
            trim_seq(l.subrange(find_seq_from(l, ":"@, 0) + 1, l.len() as int))
        } else {
            cpu_from_lines(ls.skip(1))
        }
    }
}

/// CPU name derived from the CPU info file contents.
pub open spec fn cpu_info_of(o: Option<Seq<char>>) -> Seq<char> {
    match o {
        Some(s) => cpu_from_lines(lines_seq(s)),
        None => "Unknown"@,
    }
}

/// Exec counterpart of `cpu_info_of`.
pub fn get_cpu_info(cpuinfo: Option<&str>) -> (r: String)
    ensures
        r@ == cpu_info_of(view_opt(cpuinfo)),
{
    if let Some(s) = cpuinfo {
        let ls = split_lines(s);
        let ghost dv = ls.deep_view();
        let n = ls.len();
        let mut i: usize = 0;
        proof {
            assert(dv.skip(0) =~= dv);
        }
        while i < n
            invariant
                0 <= i <= n,
                n == ls@.len(),
                dv == ls.deep_view(),
                dv == lines_seq(s@),
                view_opt(cpuinfo) == Some(s@),
                cpu_from_lines(dv) == cpu_from_lines(dv.skip(i as int)),
            decreases n - i,
        {
            proof {
                assert(dv.skip(i as int)[0] == dv[i as int]);
                assert(dv.skip(i as int).skip(1) =~= dv.skip(i as int + 1));
            }
            let line = ls[i].as_str();
            if str_starts_with(line, "model name") {
                proof {
                    reveal_strlit(":");
                    crate::strutil::lemma_find_seq_from(line@, ":"@, 0);
                }
                match find_sub_from(line, ":", 0) {
                    Some(ci) => {
                        let llen = line.unicode_len();
                        let val = trim_str(line.substring_char(ci + 1, llen));
                        return val.to_owned();
                    },
                    None => {},
                }
            }
            i = i + 1;
        }
        proof {
            assert(dv.skip(n as int) =~= Seq::<Seq<char>>::empty());
        }
    }
    String::from_str("Unknown")
}

/// RAM summary: the second field of the first "Mem:" line, with the
/// human-readable unit suffixes rewritten.
pub open spec fn ram_from_lines(ls: Seq<Seq<char>>) -> Seq<char>
    decreases ls.len(),
{
    if ls.len() == 0 {
        "Unknown"@
    } else {
        let l = ls[0];
        if "Mem:"@.is_prefix_of(l) && fields_seq(l).len() >= 2 {
            replace_seq(replace_seq(fields_seq(l)[1], "Gi"@, " GB"@), "Mi"@, " MB"@)
        } else {
            ram_from_lines(ls.skip(1))
        }
    }
}

/// RAM summary derived from the free-memory report.
pub open spec fn ram_info_of(o: Option<Seq<char>>) -> Seq<char> {
    match o {
        Some(s) => ram_from_lines(lines_seq(s)),
        None => "Unknown"@,
    }
}

/// Exec counterpart of `ram_info_of`.
pub fn get_ram_info(free_output: Option<&str>) -> (r: String)
    ensures
        r@ == ram_info_of(view_opt(free_output)),
{
    if let Some(s) = free_output {
        let ls = split_lines(s);
        let ghost dv = ls.deep_view();
        let n = ls.len();
        let mut i: usize = 0;
        proof {
            assert(dv.skip(0) =~= dv);
        }
        while i < n
            invariant
                0 <= i <= n,
                n == ls@.len(),
                dv == ls.deep_view(),
                dv == lines_seq(s@),
                view_opt(free_output) == Some(s@),
                ram_from_lines(dv) == ram_from_lines(dv.skip(i as int)),
            decreases n - i,
        {
            proof {
                assert(dv.skip(i as int)[0] == dv[i as int]);
                assert(dv.skip(i as int).skip(1) =~= dv.skip(i as int + 1));
            }
            let line = ls[i].as_str();
            if str_starts_with(line, "Mem:") {
                let parts = split_fields(line);
                if parts.len() >= 2 {
                    proof {
                        reveal_strlit("Gi");
                        reveal_strlit("Mi");
                        assert(parts.deep_view()[1] == fields_seq(dv[i as int])[1]);
                    }
                    let step = replace_str(parts[1].as_str(), "Gi", " GB");
                    return replace_str(step.as_str(), "Mi", " MB");
                }
            }
            i = i + 1;
        }
        proof {
            assert(dv.skip(n as int) =~= Seq::<Seq<char>>::empty());
        }
    }
    String::from_str("Unknown")
}

/// Kernel release string, as reported; "Unknown" when unavailable.
pub fn get_kernel_info(uname_release: Option<&str>) -> (r: String)
    ensures
        r@ == match view_opt(uname_release) {
            Some(s) => s,
            None => "Unknown"@,
        },
{
    match uname_release {
        Some(s) => s.to_owned(),
        None => String::from_str("Unknown"),
    }
}

/// Distribution display name of the detected OS.
pub fn get_distro_info(os: &OsInfo) -> (r: String)
    ensures
        r@ == os.name@,
{
    os.name.clone()
}

/// The enabled-repository listing names the NVIDIA driver repository.
pub fn is_rpmfusion_nvidia_enabled(repolist: Option<&str>) -> (b: bool)
    ensures
        b == match view_opt(repolist) {
            Some(s) => contains_seq(s, "rpmfusion-nonfree-nvidia-driver"@),
            None => false,
        },
{
    match repolist {
        Some(s) => str_contains(s, "rpmfusion-nonfree-nvidia-driver"),
        None => false,
    }
}

/// The installed driver string mentions the best available version.
pub fn is_driver_up_to_date(driver_in_use: &str, best: &str) -> (b: bool)
    ensures
        b == (best@.len() > 0 && contains_seq(driver_in_use@, best@)),
{
    best.unicode_len() > 0 && str_contains(driver_in_use, best)
}

/// Exec view of an optional owned probe output.
fn as_opt_str(o: &Option<String>) -> (r: Option<&str>)
    ensures
        view_opt(r) == match o {
            Some(s) => Some(s@),
            None => None::<Seq<char>>,
        },
{
    match o {
        Some(s) => Some(s.as_str()),
        None => None,
    }
}

/// Compose all probe outputs into one immutable system snapshot; every
/// field falls back to its documented default when its probe is missing.
pub fn get_full_system_info(p: &ProbeOutputs) -> (info: SystemInfo)
    ensures
        info.gpu.vendor@ == gpu_vendor_model(opt_view(p.lspci_vmm)).0,
        info.gpu.model@ == gpu_vendor_model(opt_view(p.lspci_vmm)).1,
        info.gpu.driver_in_use@ == driver_in_use_of(opt_view(p.lspci_k)),
        info.gpu.secure_boot == secure_boot_of(opt_view(p.mokutil_state)),
        info.cpu@ == cpu_info_of(opt_view(p.cpuinfo)),
        info.ram@ == ram_info_of(opt_view(p.free_output)),
        info.distro@ == os_field_or(opt_view(p.os_release), "PRETTY_NAME"@, "Linux"@),
        info.kernel@ == match opt_view(p.uname_release) {
            Some(s) => s,
            None => "Unknown"@,
        },
        info.display_server@ == match opt_view(p.session_type) {
            Some(s) => s,
            None => "Unknown"@,
        },
{
    let gpu = detect_gpu(
        as_opt_str(&p.lspci_vmm),
        as_opt_str(&p.lspci_k),
        as_opt_str(&p.mokutil_state),
    );
    let os = detect_os(as_opt_str(&p.os_release));
    let cpu = get_cpu_info(as_opt_str(&p.cpuinfo));
    let ram = get_ram_info(as_opt_str(&p.free_output));
    let distro = get_distro_info(&os);
    let kernel = get_kernel_info(as_opt_str(&p.uname_release));
    let display_server = match as_opt_str(&p.session_type) {
        Some(s) => s.to_owned(),
        None => String::from_str("Unknown"),
    };
    SystemInfo { gpu, cpu, ram, distro, kernel, display_server }
}

/// The view of an optional owned probe output.
pub open spec fn opt_view(o: Option<String>) -> Option<Seq<char>> {
    match o {
        Some(s) => Some(s@),
        None => None,
    }
}

} // verus!
