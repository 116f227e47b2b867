//! The fix-up pass over the binary directory: one operation — make
//! every entry executable — selected by a platform-family flag.  On the
//! POSIX family an executable bit is OR-ed onto each entry's mode
//! without removing other bits; on the other family every extensionless
//! entry is renamed to carry the executable extension.

use vstd::prelude::*;

verus! {

/// The executable bits added on the POSIX family: run access for
/// owner, group and other, as `0o511`.
pub const EXEC_BITS: u32 = 329;

/// One step the caller must perform in the binary directory.
#[derive(Debug)]
pub enum FixAction {
    /// Set this entry's permissions to the new mode.
    SetMode { name: String, mode: u32 },
    /// Rename this entry.
    Rename { name: String, new_name: String },
}

/// An entry of the binary directory: its file name and its current
/// permission bits.
#[derive(Debug)]
pub struct DirEntry {
    pub name: String,
    pub mode: u32,
}

/// The entry's name carries an extension: a dot after its first
/// character.
pub open spec fn has_extension(s: Seq<char>) -> bool {
    exists|k: int| 0 < k < s.len() && s[k] == '.'
}

/// The names of the entries that a rename pass touches, in order: those
/// without an extension.
pub open spec fn rename_targets(names: Seq<Seq<char>>) -> Seq<Seq<char>>
    decreases names.len(),
{
    if names.len() == 0 {
        Seq::empty()
    } else {
        rename_targets(names.drop_last()) + if has_extension(names.last()) {
            Seq::empty()
        } else {
            seq![names.last()]
        }
    }
}

/// ORs the executable bits onto a mode: run access is added and no bit
/// is removed.
pub fn executable_mode(mode: u32) -> (r: u32)
    ensures
        r == mode | EXEC_BITS,
        r & mode == mode,
        r & EXEC_BITS == EXEC_BITS,
{
    proof {
        assert((mode | 329) & mode == mode) by (bit_vector);
        assert((mode | 329) & 329 == 329u32) by (bit_vector);
    }
    mode | EXEC_BITS
}

/// The new name of an extensionless entry, or nothing for one that
/// already carries an extension.
pub fn rename_target(name: &str) -> (r: Option<String>)
    ensures
        match r {
            Some(t) => !has_extension(name@) && t@ == name@ + (".exe")@,
            None => has_extension(name@),
        },
{
    let n = name.unicode_len();
    let mut k: usize = 1;
    while k < n
        invariant
            1 <= k <= n || (n == 0 && k == 1),
            n == name@.len(),
            forall|j: int| 0 < j < k ==> name@[j] != '.',
        decreases n - k,
    {
        if name.get_char(k) == '.' {
            return None;
        }
        k = k + 1;
    }
    let mut t = name.to_owned();
    t.append(".exe");
    Some(t)
}

/// The fix-up plan for the listed entries: on the POSIX family one mode
/// change per entry, adding the executable bits; otherwise one rename
/// per extensionless entry, appending the executable extension.
pub fn fix_plan(entries: &Vec<DirEntry>, posix: bool) -> (r: Vec<FixAction>)
    ensures
        posix ==> r@.len() == entries@.len() && forall|k: int|
            0 <= k < r@.len() ==> (#[trigger] r@[k] matches FixAction::SetMode { name, mode }
                && name@ == entries@[k].name@ && mode == entries@[k].mode | EXEC_BITS),
        !posix ==> r@.len() == rename_targets(entries_names(entries@)).len() && forall|k: int|
            0 <= k < r@.len() ==> (#[trigger] r@[k] matches FixAction::Rename { name, new_name }
                && name@ == rename_targets(entries_names(entries@))[k] && new_name@
                == rename_targets(entries_names(entries@))[k] + (".exe")@),
{
    let n = entries.len();
    let mut r: Vec<FixAction> = Vec::new();
    let mut i: usize = 0;
    while i < n
        invariant
            0 <= i <= n,
            n == entries@.len(),
            posix ==> r@.len() == i && forall|k: int|
                0 <= k < r@.len() ==> (#[trigger] r@[k] matches FixAction::SetMode { name, mode }
                    && name@ == entries@[k].name@ && mode == entries@[k].mode | EXEC_BITS),
            !posix ==> r@.len() == rename_targets(entries_names(entries@.subrange(0, i as int))).len()
                && forall|k: int|
                0 <= k < r@.len() ==> (#[trigger] r@[k] matches FixAction::Rename {
                    name,
                    new_name,
                } && name@ == rename_targets(entries_names(entries@.subrange(0, i as int)))[k]
                    && new_name@ == rename_targets(
                    entries_names(entries@.subrange(0, i as int)),
                )[k] + (".exe")@),
        decreases n - i,
    {
        let ghost pre_names = entries_names(entries@.subrange(0, i as int));
        if posix {
            let mode = executable_mode(entries[i].mode);
            r.push(FixAction::SetMode { name: entries[i].name.clone(), mode });
        } else {
            match rename_target(entries[i].name.as_str()) {
                Some(new_name) => {
                    r.push(FixAction::Rename { name: entries[i].name.clone(), new_name });
                },
                None => {},
            }
        }
        proof {
            let cur_names = entries_names(entries@.subrange(0, i + 1 as int));
            assert(entries@.subrange(0, i + 1 as int).drop_last() =~= entries@.subrange(
                0,
                i as int,
            ));
            assert(cur_names.drop_last() =~= pre_names) by {
                lemma_entries_names_drop(entries@.subrange(0, i + 1 as int));
            }
            assert(cur_names.last() == entries@[i as int].name@) by {
                assert(entries@.subrange(0, i + 1 as int).last() == entries@[i as int]);
            }
            assert(rename_targets(cur_names) == rename_targets(cur_names.drop_last()) + if
                has_extension(cur_names.last()) {
                Seq::<Seq<char>>::empty()
            } else {
                seq![cur_names.last()]
            });
        }
        i = i + 1;
    }
    proof {
        assert(entries@.subrange(0, n as int) =~= entries@);
    }
    r
}

/// The entries' names alone.
pub open spec fn entries_names(entries: Seq<DirEntry>) -> Seq<Seq<char>> {
    entries.map_values(|e: DirEntry| e.name@)
}

/// Dropping the last entry drops the last name.
proof fn lemma_entries_names_drop(entries: Seq<DirEntry>)
    requires
        entries.len() > 0,
    ensures
        entries_names(entries).drop_last() =~= entries_names(entries.drop_last()),
        entries_names(entries).last() == entries.last().name@,
{
}

} // verus!
