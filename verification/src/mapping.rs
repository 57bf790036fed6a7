//! Mappings of driver memory: how much of it to ask for, and whether it was granted.

use vstd::arithmetic::div_mod::{lemma_fundamental_div_mod, lemma_mod_multiples_basic};
use vstd::prelude::*;

use crate::error::{Error, Result};
use crate::pcm::RawFd;

verus! {

/// The least multiple of `page_size` that is not below `bytes`.
pub open spec fn whole_pages(bytes: int, page_size: int) -> int {
    if bytes % page_size == 0 {
        bytes
    } else {
        (bytes / page_size + 1) * page_size
    }
}

/// The address that a refused mapping is reported at.
pub const MAP_FAILED: usize = usize::MAX;

/// A shared mapping of a file, as it is asked of the system.
#[derive(Clone, Copy, Debug, PartialEq, Eq, Structural)]
pub struct MapRequest {
    /// The file.
    pub fd: RawFd,
    /// The length in bytes.
    pub len: usize,
    /// Where in the file the mapping starts.
    pub offset: libc::off_t,
    /// Whether the memory is to be written as well as read.
    pub writable: bool,
}

impl MapRequest {
    /// Whether there is a mapping for `count` records of `record` bytes: it is not empty, and its
    /// length is a number of the machine.
    pub open spec fn fits(count: int, record: int, page_size: int) -> bool {
        &&& page_size > 0
        &&& count * record > 0
        &&& whole_pages(count * record, page_size) <= usize::MAX
    }

    /// The request for the whole pages that hold `count` records of `record` bytes.
    pub open spec fn of(
        fd: RawFd,
        count: int,
        record: int,
        offset: libc::off_t,
        writable: bool,
        page_size: int,
    ) -> MapRequest {
        MapRequest { fd, len: whole_pages(count * record, page_size) as usize, offset, writable }
    }

    /// Tells whether there is a mapping for `count` records of `record` bytes.
    pub fn check(count: usize, record: usize, page_size: usize) -> (r: bool)
        ensures
            r == Self::fits(count as int, record as int, page_size as int),
            r <==> 0 < page_size && 0 < count * record && exists|pages: int|
                count * record <= #[trigger] (pages * page_size) <= usize::MAX,
    {
        proof {
            if page_size > 0 {
                law_mapping_needs_pages_that_can_be_counted(
                    count as int,
                    record as int,
                    page_size as int,
                );
            }
        }
        if page_size == 0 {
            return false;
        }
        match count.checked_mul(record) {
            None => {
                proof {
                    lemma_whole_pages(count * record, page_size as int);
                }
                false
            },
            Some(total) => {
                if total == 0 {
                    return false;
                }
                let rest: usize = total % page_size;
                proof {
                    lemma_whole_pages(total as int, page_size as int);
                }
                rest == 0 || page_size - rest <= usize::MAX - total
            },
        }
    }

    /// The mapping of `count` records of `record` bytes from `offset` in the file `fd` on.
    pub fn new(
        fd: RawFd,
        count: usize,
        record: usize,
        offset: libc::off_t,
        writable: bool,
        page_size: usize,
    ) -> (r: MapRequest)
        requires
            Self::fits(count as int, record as int, page_size as int),
        ensures
            r == Self::of(fd, count as int, record as int, offset, writable, page_size as int),
            r.len == whole_pages(count * record, page_size as int),
            r.fd == fd,
            r.offset == offset,
            r.writable == writable,
            r.len % page_size == 0,
            count * record <= r.len < count * record + page_size,
    {
        proof {
            law_mapping_is_least_whole_pages(count * record, page_size as int);
            lemma_whole_pages(count * record, page_size as int);
        }
        let mut total: usize = count * record;
        if total % page_size != 0 {
            total += page_size - total % page_size;
        }
        MapRequest { fd, len: total, offset, writable }
    }
}

/// Memory of the driver that has been mapped.
#[derive(Clone, Copy, Debug, PartialEq, Eq, Structural)]
pub struct DriverMemory {
    /// The address it is mapped at.
    pub ptr: usize,
    /// Its length in bytes.
    pub size: usize,
}

impl DriverMemory {
    /// What the address `p`, in answer to a request, stands for.
    pub open spec fn granted(request: MapRequest, p: usize) -> Result<DriverMemory> {
        if p == 0 || p == MAP_FAILED {
            Err(Error::of("driver memory mmap"))
        } else {
            Ok(DriverMemory { ptr: p, size: request.len })
        }
    }

    /// Takes the answer to a request: the address of the mapping, unless it was refused.
    pub fn new(request: MapRequest, p: usize) -> (r: Result<DriverMemory>)
        ensures
            r == Self::granted(request, p),
            r is Err <==> p == 0 || p == usize::MAX,
            r matches Ok(mem) ==> mem.ptr == p && mem.size == request.len,
            r matches Err(e) ==> e.func == Some("driver memory mmap") && e.code == -1,
    {
        if p == 0 || p == MAP_FAILED {
            return Err(Error::new(Some("driver memory mmap"), -1));
        }
        Ok(DriverMemory { ptr: p, size: request.len })
    }
}

/// What remains of a page after `bytes` is what has to be added to fill it.
pub proof fn lemma_whole_pages(bytes: int, page_size: int)
    requires
        bytes >= 0,
        page_size > 0,
    ensures
        bytes % page_size == 0 ==> whole_pages(bytes, page_size) == bytes,
        bytes % page_size != 0 ==> whole_pages(bytes, page_size) == bytes + page_size - bytes
            % page_size,
        bytes <= whole_pages(bytes, page_size) < bytes + page_size,
{
    lemma_fundamental_div_mod(bytes, page_size);
    assert((bytes / page_size + 1) * page_size == page_size * (bytes / page_size) + page_size)
        by (nonlinear_arith);
}

/// A mapping holds whole pages, covers what it was asked to cover, and not a page more.
pub proof fn law_mapping_is_least_whole_pages(bytes: int, page_size: int)
    requires
        bytes >= 0,
        page_size > 0,
    ensures
        whole_pages(bytes, page_size) % page_size == 0,
        bytes <= whole_pages(bytes, page_size) < bytes + page_size,
{
    lemma_whole_pages(bytes, page_size);
    lemma_mod_multiples_basic(bytes / page_size + 1, page_size);
}

/// There is a mapping exactly where there is something to map, and some number of whole pages holds
/// it and can be counted.
pub proof fn law_mapping_needs_pages_that_can_be_counted(count: int, record: int, page_size: int)
    requires
        page_size > 0,
    ensures
        MapRequest::fits(count, record, page_size) <==> 0 < count * record && exists|pages: int|
            count * record <= #[trigger] (pages * page_size) <= usize::MAX,
{
    let bytes = count * record;
    if bytes > 0 {
        lemma_whole_pages(bytes, page_size);
        lemma_fundamental_div_mod(bytes, page_size);
        let least = if bytes % page_size == 0 {
            bytes / page_size
        } else {
            bytes / page_size + 1
        };
        assert(least * page_size == whole_pages(bytes, page_size)) by {
            assert(bytes / page_size * page_size == page_size * (bytes / page_size))
                by (nonlinear_arith);
        }
        assert forall|pages: int| bytes <= #[trigger] (pages * page_size) implies least * page_size
            <= pages * page_size by {
            assert(least <= pages) by (nonlinear_arith)
                requires
                    bytes <= pages * page_size,
                    least * page_size < bytes + page_size,
                    page_size > 0,
            ;
            assert(least * page_size <= pages * page_size) by (nonlinear_arith)
                requires
                    least <= pages,
                    page_size > 0,
            ;
        }
    }
}

/// A request names the file, the place and the access that it was made for, and the least whole
/// pages that hold its records.
pub proof fn law_request_is_for_what_was_asked(
    fd: RawFd,
    count: int,
    record: int,
    offset: libc::off_t,
    writable: bool,
    page_size: int,
)
    requires
        MapRequest::fits(count, record, page_size),
    ensures
        ({
            let request = MapRequest::of(fd, count, record, offset, writable, page_size);
            &&& request.fd == fd
            &&& request.offset == offset
            &&& request.writable == writable
            &&& request.len as int % page_size == 0
            &&& count * record <= request.len < count * record + page_size
        }),
{
    law_mapping_is_least_whole_pages(count * record, page_size);
}

/// A mapping is refused by the address zero and by the last address there is, and by no other: any
/// other address is that of the memory, which is as long as was asked for.
pub proof fn law_mapping_is_granted_at_any_other_address(request: MapRequest, p: usize)
    ensures
        MAP_FAILED == usize::MAX,
        DriverMemory::granted(request, p) is Ok <==> p != 0 && p != usize::MAX,
        DriverMemory::granted(request, p) matches Ok(mem) ==> mem.ptr == p && mem.size
            == request.len,
        DriverMemory::granted(request, p) matches Err(e) ==> e.func == Some("driver memory mmap")
            && e.code == -1,
{
}

} // verus!
