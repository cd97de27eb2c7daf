//! The loader-snaps switch in the image-file-execution-options registry key:
//! the `GlobalFlag` value to write, and the guard that owns the original value
//! and puts it back. The registry itself is read and written by the caller;
//! the guard decides what the value becomes.
use vstd::prelude::*;
use crate::pe::u32_at;

verus! {

/// The `NtGlobalFlag` bit that turns on loader snaps.
pub const FLG_SHOW_LDR_SNAPS: u32 = 0x0000_0002;

/// The registry type of a 32-bit little-endian value.
pub const REG_DWORD: u32 = 4;

/// The Win32 error for an invalid argument.
pub const ERROR_INVALID_PARAMETER: u32 = 87;

/// A registry value as its type and raw bytes; `None` when the value is absent.
pub type RegValue = Option<(u32, Vec<u8>)>;

/// A registry value as plain values.
pub open spec fn reg_view(v: RegValue) -> Option<(u32, Seq<u8>)> {
    match v {
        Some((t, d)) => Some((t, d@)),
        None => None,
    }
}

/// The flags that a `GlobalFlag` value holds: its first four bytes where it is
/// a `REG_DWORD` of at least four bytes, else none.
pub open spec fn flags_of(v: Option<(u32, Seq<u8>)>) -> u32 {
    match v {
        Some((t, d)) => if t == REG_DWORD && d.len() >= 4 {
            u32_at(d, 0) as u32
        } else {
            0
        },
        None => 0,
    }
}

/// The four little-endian bytes of `v`.
pub open spec fn le_bytes(v: u32) -> Seq<u8> {
    seq![(v % 256) as u8, (v / 256 % 256) as u8, (v / 65536 % 256) as u8, (v / 16777216) as u8]
}

/// The value that enabling writes: the old flags with the loader-snaps bit set.
pub open spec fn enabled_value(orig: Option<(u32, Seq<u8>)>) -> Option<(u32, Seq<u8>)> {
    Some((REG_DWORD, le_bytes(flags_of(orig) | FLG_SHOW_LDR_SNAPS)))
}

/// The IFEO key of an image, below `HKEY_LOCAL_MACHINE`.
pub open spec fn ifeo_key(image_name: Seq<char>) -> Seq<char> {
    "SOFTWARE\\Microsoft\\Windows NT\\CurrentVersion\\Image File Execution Options\\"@
        + image_name
}

/// Owns the original `GlobalFlag` value of one image while loader snaps are on.
pub struct LoaderSnapsGuard {
    key_path: String,
    original_value: RegValue,
    restored: bool,
}

impl LoaderSnapsGuard {
    pub closed spec fn spec_key_path(&self) -> Seq<char> {
        self.key_path@
    }

    pub closed spec fn spec_original(&self) -> Option<(u32, Seq<u8>)> {
        reg_view(self.original_value)
    }

    pub closed spec fn spec_restored(&self) -> bool {
        self.restored
    }

    /// What `enable_for_image` does, for `name` and the value `before` it.
    pub open spec fn enable_post(
        name: Seq<char>,
        before: Option<(u32, Seq<u8>)>,
        r: Result<LoaderSnapsGuard, u32>,
        after: Option<(u32, Seq<u8>)>,
    ) -> bool {
        if name.len() == 0 {
            r == Err::<LoaderSnapsGuard, u32>(ERROR_INVALID_PARAMETER) && after == before
        } else {
            &&& r is Ok
            &&& r->Ok_0.spec_key_path() == ifeo_key(name)
            &&& r->Ok_0.spec_original() == before
            &&& !r->Ok_0.spec_restored()
            &&& after == enabled_value(before)
        }
    }

    /// What `restore` does to a guard `g` and the current value `before`.
    pub open spec fn restore_post(
        g: LoaderSnapsGuard,
        before: Option<(u32, Seq<u8>)>,
        wrote: bool,
        g2: LoaderSnapsGuard,
        after: Option<(u32, Seq<u8>)>,
    ) -> bool {
        &&& g2.spec_key_path() == g.spec_key_path()
        &&& g2.spec_original() == g.spec_original()
        &&& g2.spec_restored() == g.spec_restored()
        &&& if g.spec_restored() {
            !wrote && after == before
        } else {
            wrote && after == g.spec_original()
        }
    }

    /// What `confirm_restored` does to a guard `g` told the outcome `write` of
    /// writing the restored value back.
    pub open spec fn confirm_post(
        g: LoaderSnapsGuard,
        write: Result<(), u32>,
        g2: LoaderSnapsGuard,
        r: Result<(), u32>,
    ) -> bool {
        &&& g2.spec_key_path() == g.spec_key_path()
        &&& g2.spec_original() == g.spec_original()
        &&& g2.spec_restored() == (g.spec_restored() || write is Ok)
        &&& r == write
    }

    /// Turns loader snaps on for `image_name`. `value` is the image's
    /// `GlobalFlag` value as read from its IFEO key; on success it becomes
    /// the value to write back, and the guard keeps the original. An empty
    /// name is rejected with `ERROR_INVALID_PARAMETER` and `value` is left as it is.
    pub fn enable_for_image(image_name: &str, value: &mut RegValue) -> (r: Result<
        LoaderSnapsGuard,
        u32,
    >)
        ensures
            Self::enable_post(image_name@, reg_view(*old(value)), r, reg_view(*final(value))),
    {
        if image_name.is_empty() {
            return Err(ERROR_INVALID_PARAMETER);
        }
        let key_path = Self::key_path_for(image_name);
        let original_value = clone_value(value);
        let current_flags = flags_exec(value);
        let new_flags = current_flags | FLG_SHOW_LDR_SNAPS;
        *value = Some((REG_DWORD, le_bytes_exec(new_flags)));
        Ok(LoaderSnapsGuard { key_path, original_value, restored: false })
    }

    /// The IFEO key of `image_name`.
    pub fn key_path_for(image_name: &str) -> (r: String)
        ensures
            r@ == ifeo_key(image_name@),
    {
        let mut s = "SOFTWARE\\Microsoft\\Windows NT\\CurrentVersion\\Image File Execution Options\\".to_owned();
        s.append(image_name);
        s
    }

    /// The IFEO key this guard changed.
    pub fn key_path(&self) -> (r: &str)
        ensures
            r@ == self.spec_key_path(),
    {
        self.key_path.as_str()
    }

    /// Puts the original value back into `value`, the image's current
    /// `GlobalFlag` value, deleting it (`None`) where there was none. Returns
    /// whether `value` changed and must be written; once the restore is
    /// confirmed, a further call changes nothing.
    pub fn restore(&mut self, value: &mut RegValue) -> (wrote: bool)
        ensures
            Self::restore_post(*old(self), reg_view(*old(value)), wrote, *final(self), reg_view(*final(value))),
    {
        if self.restored {
            return false;
        }
        *value = clone_value(&self.original_value);
        true
    }

    /// Records the outcome of writing the restored value back: the guard
    /// counts as restored only once a write succeeded, so a failed write is
    /// retried by the next `restore`. Returns `write`.
    pub fn confirm_restored(&mut self, write: Result<(), u32>) -> (r: Result<(), u32>)
        ensures
            Self::confirm_post(*old(self), write, *final(self), r),
    {
        if write.is_ok() {
            self.restored = true;
        }
        write
    }
}

fn clone_value(v: &RegValue) -> (r: RegValue)
    ensures
        reg_view(r) == reg_view(*v),
{
    match v {
        Some((t, d)) => Some((*t, d.clone())),
        None => None,
    }
}

fn flags_exec(v: &RegValue) -> (r: u32)
    ensures
        r == flags_of(reg_view(*v)),
{
    match v {
        Some((t, d)) => {
            if *t == REG_DWORD && d.len() >= 4 {
                d[0] as u32 + (d[1] as u32) * 256 + (d[2] as u32) * 65536 + (d[3] as u32) * 16777216
            } else {
                0
            }
        },
        None => 0,
    }
}

fn le_bytes_exec(v: u32) -> (r: Vec<u8>)
    ensures
        r@ == le_bytes(v),
{
    let mut out: Vec<u8> = Vec::new();
    out.push((v % 256) as u8);
    out.push((v / 256 % 256) as u8);
    out.push((v / 65536 % 256) as u8);
    out.push((v / 16777216) as u8);
    assert(out@ =~= le_bytes(v));
    out
}

/// Enabling and then restoring leaves an image's `GlobalFlag` value as it
/// was before, including its absence; once the write is confirmed, restoring
/// again changes nothing.
pub proof fn lemma_enable_restore_inverse(
    name: Seq<char>,
    orig: Option<(u32, Seq<u8>)>,
    enabled: Result<LoaderSnapsGuard, u32>,
    after_enable: Option<(u32, Seq<u8>)>,
    wrote1: bool,
    g1: LoaderSnapsGuard,
    after_restore: Option<(u32, Seq<u8>)>,
    g2: LoaderSnapsGuard,
    confirmed: Result<(), u32>,
    wrote2: bool,
    g3: LoaderSnapsGuard,
    after_second: Option<(u32, Seq<u8>)>,
)
    requires
        name.len() > 0,
        LoaderSnapsGuard::enable_post(name, orig, enabled, after_enable),
        LoaderSnapsGuard::restore_post(enabled->Ok_0, after_enable, wrote1, g1, after_restore),
        LoaderSnapsGuard::confirm_post(g1, Ok(()), g2, confirmed),
        LoaderSnapsGuard::restore_post(g2, after_restore, wrote2, g3, after_second),
    ensures
        after_enable == enabled_value(orig),
        wrote1,
        after_restore == orig,
        !wrote2,
        after_second == orig,
{
}

/// A restore whose write failed stays pending: the next restore puts the
/// original value back again.
pub proof fn lemma_failed_restore_retries(
    g: LoaderSnapsGuard,
    code: u32,
    g2: LoaderSnapsGuard,
    confirmed: Result<(), u32>,
    before: Option<(u32, Seq<u8>)>,
    wrote: bool,
    g3: LoaderSnapsGuard,
    after: Option<(u32, Seq<u8>)>,
)
    requires
        !g.spec_restored(),
        LoaderSnapsGuard::confirm_post(g, Err(code), g2, confirmed),
        LoaderSnapsGuard::restore_post(g2, before, wrote, g3, after),
    ensures
        confirmed == Err::<(), u32>(code),
        wrote,
        after == g.spec_original(),
{
}

} // verus!
