//! The hypercalls that hand the guest its command line and environment: one
//! reports how many strings there are and how long each is, the other copies
//! them to destinations that the guest lists.
use vstd::prelude::*;

use vstd::bytes::spec_u64_from_le_bytes;

use crate::consts::MAX_ARGC_ENVC;
use crate::mem::{lemma_same_value, lemma_splice_frame, lemma_write_then_read, splice, GuestValue, MemoryError, MmapMemory};
use crate::params::CmdvalParams;

verus! {

/// Offset of the environment count in the size record.
pub const CMDSIZE_ENVC_OFFSET: u64 = 516;

/// Size of the size record: a count and `MAX_ARGC_ENVC` sizes, twice.
pub const CMDSIZE_RECORD_SIZE: u64 = 1032;

/// The bytes of each vector of `v`.
pub open spec fn views(v: Seq<Vec<u8>>) -> Seq<Seq<u8>> {
    v.map_values(|s: Vec<u8>| s@)
}

/// Each string of `strs`, at most `MAX_ARGC_ENVC` of them.
pub open spec fn bounded(strs: Seq<Seq<u8>>) -> Seq<Seq<u8>> {
    if strs.len() <= MAX_ARGC_ENVC {
        strs
    } else {
        strs.subrange(0, MAX_ARGC_ENVC as int)
    }
}

/// The guest's arguments: the kernel path, then the arguments.
pub open spec fn argv_strings(kernel_path: Seq<u8>, args: Seq<Vec<u8>>) -> Seq<Seq<u8>> {
    bounded(seq![kernel_path] + args.map_values(|a: Vec<u8>| a@))
}

/// The guest's environment as `KEY=VALUE` strings.
pub open spec fn env_strings(envs: Seq<(Vec<u8>, Vec<u8>)>) -> Seq<Seq<u8>> {
    bounded(envs.map_values(|e: (Vec<u8>, Vec<u8>)| e.0@ + seq![0x3du8] + e.1@))
}

/// The bytes at `base` after the strings of `strs`, each NUL-terminated,
/// are copied in order to the destinations listed in the table at `table`,
/// and whether every destination lay in guest memory. A destination is read
/// after the strings before it were copied; copying stops at the first one
/// outside guest memory.
pub open spec fn copy_strings(base: int, bytes: Seq<u8>, table: int, strs: Seq<Seq<u8>>) -> (
    Seq<u8>,
    bool,
)
    decreases strs.len(),
{
    if strs.len() == 0 {
        (bytes, true)
    } else {
        let (b1, ok) = copy_strings(base, bytes, table, strs.drop_last());
        let slot = table + 8 * (strs.len() - 1);
        let s = strs.last().push(0u8);
        if !ok {
            (b1, false)
        } else if base <= slot && slot + 8 <= base + b1.len() {
            let dest = spec_u64_from_le_bytes(b1.subrange(slot - base, slot - base + 8)) as int;
            if base <= dest && dest + s.len() <= base + b1.len() {
                (splice(b1, dest - base, s), true)
            } else {
                (b1, false)
            }
        } else {
            (b1, false)
        }
    }
}

proof fn lemma_copy_strings_len(base: int, bytes: Seq<u8>, table: int, strs: Seq<Seq<u8>>)
    ensures
        copy_strings(base, bytes, table, strs).0.len() == bytes.len(),
    decreases strs.len(),
{
    if strs.len() > 0 {
        lemma_copy_strings_len(base, bytes, table, strs.drop_last());
    }
}

proof fn lemma_copy_strings_failed(base: int, bytes: Seq<u8>, table: int, strs: Seq<Seq<u8>>, k: int)
    requires
        0 <= k <= strs.len(),
        !copy_strings(base, bytes, table, strs.subrange(0, k)).1,
    ensures
        copy_strings(base, bytes, table, strs) == copy_strings(base, bytes, table, strs.subrange(0, k)),
    decreases strs.len() - k,
{
    if k < strs.len() {
        let next = strs.subrange(0, k + 1);
        assert(next.drop_last() =~= strs.subrange(0, k));
        lemma_copy_strings_failed(base, bytes, table, strs, k + 1);
    } else {
        assert(strs.subrange(0, k) =~= strs);
    }
}

/// Copies each string of `strs`, NUL-terminated, to the destination listed
/// for it in the table at `table`.
fn copy_out(mem: &mut MmapMemory, table: u64, strs: &Vec<Vec<u8>>) -> (r: Result<(), MemoryError>)
    requires
        old(mem).wf(),
    ensures
        final(mem).wf(),
        final(mem).base() == old(mem).base(),
        final(mem).bytes() == copy_strings(
            old(mem).base() as int,
            old(mem).bytes(),
            table as int,
            views(strs@),
        ).0,
        r is Ok <==> copy_strings(
            old(mem).base() as int,
            old(mem).bytes(),
            table as int,
            views(strs@),
        ).1,
        r is Err ==> r == Err::<(), MemoryError>(MemoryError::BoundsViolation),
{
    let ghost base = old(mem).base() as int;
    let ghost b0 = old(mem).bytes();
    let ghost all = views(strs@);
    let mut i: usize = 0;
    assert(all.subrange(0, 0) =~= Seq::<Seq<u8>>::empty());
    while i < strs.len()
        invariant
            mem.wf(),
            mem.base() == base,
            i <= strs@.len(),
            all == views(strs@),
            b0 == old(mem).bytes(),
            base == old(mem).base(),
            copy_strings(base, b0, table as int, all.subrange(0, i as int)) == (mem.bytes(), true),
        decreases strs.len() - i,
    {
        let ghost pre = all.subrange(0, i as int);
        let ghost next = all.subrange(0, i + 1);
        assert(next.drop_last() =~= pre);
        assert(next.last() == strs@[i as int]@);
        proof {
            mem.lemma_wf_bounds();
        }
        let slot_opt = match (i as u64).checked_mul(8) {
            Some(o) => o.checked_add(table),
            None => None,
        };
        let slot = match slot_opt {
            Some(s) => s,
            None => {
                proof {
                    assert(!copy_strings(base, b0, table as int, next).1);
                    lemma_copy_strings_failed(base, b0, table as int, all, i + 1);
                    assert(all.subrange(0, i + 1) == next);
                }
                return Err(MemoryError::BoundsViolation);
            },
        };
        let dest = match mem.read_typed::<u64>(slot) {
            Ok(d) => d,
            Err(e) => {
                proof {
                    lemma_copy_strings_failed(base, b0, table as int, all, i + 1);
                }
                return Err(e);
            },
        };
        let mut s = vstd::slice::slice_to_vec(strs[i].as_slice());
        s.push(0u8);
        assert(s@ == next.last().push(0u8));
        match mem.write_bytes(dest, s.as_slice()) {
            Ok(()) => {},
            Err(e) => {
                proof {
                    lemma_copy_strings_failed(base, b0, table as int, all, i + 1);
                }
                return Err(e);
            },
        }
        i += 1;
    }
    assert(all.subrange(0, i as int) =~= all);
    Ok(())
}

/// The argument and environment strings as vectors.
fn collect_strings(kernel_path: &[u8], args: &Vec<Vec<u8>>, envs: &Vec<(Vec<u8>, Vec<u8>)>) -> (r: (
    Vec<Vec<u8>>,
    Vec<Vec<u8>>,
))
    ensures
        views(r.0@) == argv_strings(kernel_path@, args@),
        views(r.1@) == env_strings(envs@),
        r.0@.len() <= MAX_ARGC_ENVC,
        r.1@.len() <= MAX_ARGC_ENVC,
{
    let ghost all_args = seq![kernel_path@] + args@.map_values(|a: Vec<u8>| a@);
    let mut argv: Vec<Vec<u8>> = Vec::new();
    argv.push(vstd::slice::slice_to_vec(kernel_path));
    let mut i: usize = 0;
    assert(views(argv@) =~= all_args.subrange(0, 1));
    while i < args.len() && i + 1 < MAX_ARGC_ENVC
        invariant
            i <= args@.len(),
            i + 1 <= MAX_ARGC_ENVC,
            all_args == seq![kernel_path@] + args@.map_values(|a: Vec<u8>| a@),
            views(argv@) =~= all_args.subrange(0, i + 1),
            argv@.len() == i + 1,
        decreases args.len() - i,
    {
        let ghost before = argv@;
        argv.push(vstd::slice::slice_to_vec(args[i].as_slice()));
        assert forall|k: int| 0 <= k < i + 2 implies #[trigger] views(argv@)[k] == all_args.subrange(0, i + 2)[k] by {
            if k < i + 1 {
                assert(argv@[k] == before[k]);
                assert(views(before)[k] == all_args.subrange(0, i + 1)[k]);
            }
        }
        assert(views(argv@) =~= all_args.subrange(0, i + 2));
        i += 1;
    }
    assert(views(argv@) =~= bounded(all_args));
    let ghost all_envs = envs@.map_values(|e: (Vec<u8>, Vec<u8>)| e.0@ + seq![0x3du8] + e.1@);
    let mut envp: Vec<Vec<u8>> = Vec::new();
    let mut j: usize = 0;
    while j < envs.len() && j < MAX_ARGC_ENVC
        invariant
            j <= envs@.len(),
            j <= MAX_ARGC_ENVC,
            all_envs == envs@.map_values(|e: (Vec<u8>, Vec<u8>)| e.0@ + seq![0x3du8] + e.1@),
            views(envp@) =~= all_envs.subrange(0, j as int),
            envp@.len() == j,
        decreases envs.len() - j,
    {
        let mut e = vstd::slice::slice_to_vec(envs[j].0.as_slice());
        e.push(0x3d);
        let mut k: usize = 0;
        let ghost prefix = e@;
        while k < envs[j].1.len()
            invariant
                k <= envs@[j as int].1@.len(),
                j < envs@.len(),
                e@ == prefix + envs@[j as int].1@.subrange(0, k as int),
            decreases envs@[j as int].1@.len() - k,
        {
            e.push(envs[j].1[k]);
            assert(envs@[j as int].1@.subrange(0, k + 1) =~= envs@[j as int].1@.subrange(0, k as int).push(envs@[j as int].1@[k as int]));
            k += 1;
        }
        assert(envs@[j as int].1@.subrange(0, k as int) =~= envs@[j as int].1@);
        let ghost before = envp@;
        envp.push(e);
        assert forall|k: int| 0 <= k < j + 1 implies #[trigger] views(envp@)[k] == all_envs.subrange(0, j + 1)[k] by {
            if k < j {
                assert(envp@[k] == before[k]);
                assert(views(before)[k] == all_envs.subrange(0, j as int)[k]);
            }
        }
        assert(views(envp@) =~= all_envs.subrange(0, j + 1));
        j += 1;
    }
    assert(views(envp@) =~= bounded(all_envs));
    (argv, envp)
}

/// Handles the hypercall that copies the command line and the environment
/// into the guest: the kernel path as the first argument, then the
/// arguments, to the destinations listed at `argv`; then the environment as
/// `KEY=VALUE` strings to those listed at `envp`. At most `MAX_ARGC_ENVC` of
/// each; copying stops at the first destination outside guest memory.
pub fn cmdval(
    mem: &mut MmapMemory,
    params: &CmdvalParams,
    kernel_path: &[u8],
    args: &Vec<Vec<u8>>,
    envs: &Vec<(Vec<u8>, Vec<u8>)>,
) -> (r: Result<(), MemoryError>)
    requires
        old(mem).wf(),
    ensures
        final(mem).wf(),
        final(mem).base() == old(mem).base(),
        ({
            let (b1, ok1) = copy_strings(
                old(mem).base() as int,
                old(mem).bytes(),
                params.argv as int,
                argv_strings(kernel_path@, args@),
            );
            let (b2, ok2) = copy_strings(
                old(mem).base() as int,
                b1,
                params.envp as int,
                env_strings(envs@),
            );
            &&& ok1 ==> final(mem).bytes() == b2 && (r is Ok <==> ok2)
            &&& !ok1 ==> final(mem).bytes() == b1 && r is Err
        }),
{
    let (argv, envp) = collect_strings(kernel_path, args, envs);
    match copy_out(mem, params.argv, &argv) {
        Ok(()) => {},
        Err(e) => return Err(e),
    }
    copy_out(mem, params.envp, &envp)
}

/// The size that the size record reports for string `i` of `strs`: its
/// length with the NUL, or 0 past the last string.
pub open spec fn reported_size(strs: Seq<Seq<u8>>, i: int) -> i32 {
    if 0 <= i < strs.len() {
        (strs[i].len() + 1) as i32
    } else {
        0
    }
}

/// The strings' sizes fit the record.
pub open spec fn sizes_fit(strs: Seq<Seq<u8>>) -> bool {
    forall|i: int| 0 <= i < strs.len() ==> #[trigger] strs[i].len() < i32::MAX
}

/// `m` holds at `addr` the count of `strs` at offset `count_at` and their
/// sizes in the `MAX_ARGC_ENVC` slots after it.
pub open spec fn holds_sizes(m: MmapMemory, addr: int, count_at: int, strs: Seq<Seq<u8>>) -> bool {
    &&& m.value_at::<i32>(addr + count_at) == strs.len() as i32
    &&& forall|i: int|
        0 <= i < MAX_ARGC_ENVC ==> m.value_at::<i32>(addr + count_at + 4 + 4 * i)
            == #[trigger] reported_size(strs, i)
}

/// Writes the `i32` `v` at `gpa`, which lies in guest memory.
fn write_i32(mem: &mut MmapMemory, gpa: u64, v: i32)
    requires
        old(mem).wf(),
        old(mem).in_bounds(gpa as int, 4),
    ensures
        final(mem).wf(),
        final(mem).base() == old(mem).base(),
        final(mem).bytes().len() == old(mem).bytes().len(),
        final(mem).value_at::<i32>(gpa as int) == v,
        forall|j: int|
            0 <= j < old(mem).bytes().len() && !(old(mem).offset(gpa as int) <= j < old(mem).offset(
                gpa as int,
            ) + 4) ==> final(mem).bytes()[j] == old(mem).bytes()[j],
{
    let _ = mem.write_typed(gpa, &v);
    proof {
        i32::lemma_round_trip(v);
        lemma_splice_frame(old(mem).bytes(), old(mem).offset(gpa as int), v.encode());
        lemma_write_then_read(*old(mem), *mem, gpa as int, v);
    }
}

/// Writes the count of `strs` at `addr + count_at` and their sizes after it.
fn write_sizes(mem: &mut MmapMemory, addr: u64, count_at: u64, strs: &Vec<Vec<u8>>)
    requires
        old(mem).wf(),
        count_at == 0 || count_at == CMDSIZE_ENVC_OFFSET,
        old(mem).in_bounds(addr as int, CMDSIZE_RECORD_SIZE as int),
        strs@.len() <= MAX_ARGC_ENVC,
        sizes_fit(views(strs@)),
    ensures
        final(mem).wf(),
        final(mem).base() == old(mem).base(),
        final(mem).bytes().len() == old(mem).bytes().len(),
        holds_sizes(*final(mem), addr as int, count_at as int, views(strs@)),
        forall|j: int|
            0 <= j < old(mem).bytes().len() && !(old(mem).offset(addr as int) + count_at <= j
                < old(mem).offset(addr as int) + count_at + 516) ==> final(mem).bytes()[j] == old(
                mem,
            ).bytes()[j],
{
    proof {
        mem.lemma_wf_bounds();
    }
    let ghost start = *mem;
    let ghost s = views(strs@);
    let ghost off = start.offset(addr as int) + count_at;
    let base = addr + count_at;
    write_i32(mem, base, strs.len() as i32);
    let ghost counted = *mem;
    let mut i: usize = 0;
    while i < MAX_ARGC_ENVC
        invariant
            mem.wf(),
            mem.base() == start.base(),
            mem.bytes().len() == start.bytes().len(),
            start.in_bounds(addr as int, CMDSIZE_RECORD_SIZE as int),
            start.base() + start.bytes().len() <= u64::MAX,
            count_at == 0 || count_at == CMDSIZE_ENVC_OFFSET,
            base == addr + count_at,
            off == start.offset(addr as int) + count_at,
            s == views(strs@),
            strs@.len() <= MAX_ARGC_ENVC,
            sizes_fit(s),
            i <= MAX_ARGC_ENVC,
            counted.value_at::<i32>(base as int) == strs@.len() as i32,
            counted.base() == start.base(),
            counted.bytes().len() == start.bytes().len(),
            forall|j: int|
                0 <= j < start.bytes().len() && !(off <= j < off + 4) ==> counted.bytes()[j]
                    == start.bytes()[j],
            forall|j: int|
                0 <= j < start.bytes().len() && !(off + 4 <= j < off + 4 + 4 * i) ==> mem.bytes()[j]
                    == counted.bytes()[j],
            forall|k: int|
                0 <= k < i ==> mem.value_at::<i32>(base + 4 + 4 * k) == #[trigger] reported_size(
                    s,
                    k,
                ),
        decreases MAX_ARGC_ENVC - i,
    {
        let size: i32 = if i < strs.len() {
            assert(s[i as int].len() < i32::MAX);
            (strs[i].len() + 1) as i32
        } else {
            0
        };
        let ghost prev = *mem;
        write_i32(mem, base + 4 + 4 * i as u64, size);
        proof {
            assert forall|k: int| 0 <= k < i + 1 implies mem.value_at::<i32>(base + 4 + 4 * k)
                == #[trigger] reported_size(s, k) by {
                if k < i {
                    lemma_same_value::<i32>(*mem, prev, base + 4 + 4 * k);
                }
            }
        }
        i += 1;
    }
    proof {
        lemma_same_value::<i32>(*mem, counted, base as int);
        assert(s.len() == strs@.len());
    }
}

/// Handles the hypercall that asks for the number and sizes of the
/// arguments and environment strings: writes into the record at `addr` the
/// number of arguments (the kernel path first), the size of each with its
/// NUL, and the same of the `KEY=VALUE` environment strings, at most
/// `MAX_ARGC_ENVC` of each; unused slots hold 0.
pub fn cmdsize(
    mem: &mut MmapMemory,
    addr: u64,
    kernel_path: &[u8],
    args: &Vec<Vec<u8>>,
    envs: &Vec<(Vec<u8>, Vec<u8>)>,
) -> (r: Result<(), MemoryError>)
    requires
        old(mem).wf(),
        sizes_fit(argv_strings(kernel_path@, args@)),
        sizes_fit(env_strings(envs@)),
    ensures
        final(mem).wf(),
        final(mem).base() == old(mem).base(),
        final(mem).bytes().len() == old(mem).bytes().len(),
        old(mem).in_bounds(addr as int, CMDSIZE_RECORD_SIZE as int) ==> r is Ok && holds_sizes(
            *final(mem),
            addr as int,
            0,
            argv_strings(kernel_path@, args@),
        ) && holds_sizes(
            *final(mem),
            addr as int,
            CMDSIZE_ENVC_OFFSET as int,
            env_strings(envs@),
        ) && forall|j: int|
            0 <= j < old(mem).bytes().len() && !(old(mem).offset(addr as int) <= j < old(
                mem,
            ).offset(addr as int) + CMDSIZE_RECORD_SIZE) ==> #[trigger] final(mem).bytes()[j]
                == old(mem).bytes()[j],
        !old(mem).in_bounds(addr as int, CMDSIZE_RECORD_SIZE as int) ==> r == Err::<
            (),
            MemoryError,
        >(MemoryError::BoundsViolation) && final(mem).bytes() == old(mem).bytes(),
{
    if mem.offset_of(addr, CMDSIZE_RECORD_SIZE as usize).is_err() {
        return Err(MemoryError::BoundsViolation);
    }
    let (argv, envp) = collect_strings(kernel_path, args, envs);
    let ghost start = *mem;
    write_sizes(mem, addr, 0, &argv);
    let ghost after_args = *mem;
    write_sizes(mem, addr, CMDSIZE_ENVC_OFFSET, &envp);
    proof {
        let a = argv_strings(kernel_path@, args@);
        assert(after_args.value_at::<i32>(addr as int) == a.len() as i32);
        lemma_same_value::<i32>(*mem, after_args, addr as int);
        assert forall|i: int| 0 <= i < MAX_ARGC_ENVC implies mem.value_at::<i32>(
            addr + 0 + 4 + 4 * i,
        ) == #[trigger] reported_size(a, i) by {
            assert(after_args.value_at::<i32>(addr + 0 + 4 + 4 * i) == reported_size(a, i));
            lemma_same_value::<i32>(*mem, after_args, addr + 0 + 4 + 4 * i);
        }
    }
    Ok(())
}

} // verus!
