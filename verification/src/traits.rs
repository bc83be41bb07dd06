//! The block device capability that the driver consumes.

use vstd::prelude::*;

verus! {

/// Why an input or output operation failed.
#[derive(Debug, Clone, Copy, PartialEq, Eq, Structural)]
pub enum IoError {
    /// A path component, a partition or a cache entry does not exist.
    NotFound,
    /// The medium ended before a full sector was read.
    UnexpectedEof,
    /// A sector or cluster number is outside what can be addressed.
    InvalidInput,
    /// The volume's geometry cannot be used.
    InvalidData,
    /// A path component that is not the last one names a file.
    NotADirectory,
    /// A change was asked of a filesystem that is mounted read-only.
    ReadOnlyFilesystem,
    /// A cluster chain runs through a free, reserved or bad entry, or loops.
    CorruptChain,
    /// Any other fault that the medium reported.
    Other,
}

/// What a read of one sector comes to when a whole sector of `size` bytes
/// was asked for and the device answered `read`: a fault stays the fault it
/// was, and a count is accepted only if it is the whole sector.
pub open spec fn whole_sector(size: int, read: Result<usize, IoError>) -> Result<usize, IoError> {
    match read {
        Ok(count) => if count == size {
            Ok(count)
        } else {
            Err(IoError::UnexpectedEof)
        },
        Err(e) => Err(e),
    }
}

/// Takes what a device answered to a read into `sector`, a buffer of one
/// whole sector, and appends that sector to `vec` if all of it was read.
///
/// A count short of the sector is `UnexpectedEof`, and a fault is handed
/// on; in both cases `vec` is left as it was.
pub fn append_sector(vec: &mut Vec<u8>, sector: Vec<u8>, read: Result<usize, IoError>) -> (r: Result<
    usize,
    IoError,
>)
    ensures
        r == whole_sector(sector@.len() as int, read),
        final(vec)@ == if r is Ok {
            old(vec)@ + sector@
        } else {
            old(vec)@
        },
{
    let count = read?;
    if count != sector.len() {
        return Err(IoError::UnexpectedEof);
    }
    let mut sector = sector;
    vec.append(&mut sector);
    Ok(count)
}

/// A device that is read and written one sector at a time.
///
/// The driver is proved for every device that keeps the clauses below, and
/// they ask little: that `sector_size` reports `spec_sector_size`, that a
/// read leaves the buffer as long as it was, and of `read_all_sector` what
/// its provided body is proved to do. Nothing is assumed of the bytes that
/// a device hands back, nor of whether a read succeeds. An implementation
/// that is not verified is taken at its word for these clauses.
pub trait BlockDevice {
    /// The size of one sector in bytes, as `sector_size` reports it: 512
    /// unless the device says otherwise. A device with another sector size
    /// says so here and in `sector_size` alike.
    open spec fn spec_sector_size(&self) -> u64 {
        512
    }

    /// Sector size in bytes.
    fn sector_size(&self) -> (size: u64)
        ensures
            size == self.spec_sector_size(),
    ;

    /// Reads sector `n` into `buf` and returns the number of bytes read:
    /// the sector size or `buf.len()`, whichever is less.
    ///
    /// Nothing is claimed of what a device hands back; a slice keeps its
    /// length whatever is written to it.
    fn read_sector(&mut self, n: u64, buf: &mut [u8]) -> (r: Result<usize, IoError>)
        ensures
            final(buf)@.len() == old(buf)@.len(),
    ;

    /// Overwrites sector `n` with the contents of `buf` and returns the
    /// number of bytes written.
    fn write_sector(&mut self, n: u64, buf: &[u8]) -> (r: Result<usize, IoError>);

    /// Appends sector `n` to `vec` and returns the number of bytes
    /// appended, which is the sector size.
    ///
    /// Fails with `UnexpectedEof` when the device hands back fewer bytes
    /// than a full sector, and with `InvalidInput` when a sector does not
    /// fit in memory. On failure `vec` is left as it was. Whether the read
    /// succeeds is the device's to say; `append_sector` tells what becomes
    /// of each answer.
    fn read_all_sector(&mut self, n: u64, vec: &mut Vec<u8>) -> (r: Result<usize, IoError>)
        ensures
            old(self).spec_sector_size() > usize::MAX ==> r == Err::<usize, IoError>(
                IoError::InvalidInput,
            ),
            match r {
                Ok(read) => {
                    &&& read == old(self).spec_sector_size()
                    &&& final(vec)@.len() == old(vec)@.len() + read
                    &&& final(vec)@.subrange(0, old(vec)@.len() as int) == old(vec)@
                },
                Err(_) => final(vec)@ == old(vec)@,
            },
    {
        let size = self.sector_size();
        if size > usize::MAX as u64 {
            return Err(IoError::InvalidInput);
        }
        let mut sector: Vec<u8> = vec![0u8; size as usize];
        let read = self.read_sector(n, sector.as_mut_slice());
        let r = append_sector(vec, sector, read);
        assert(vec@.subrange(0, old(vec)@.len() as int) =~= old(vec)@);
        r
    }
}

/// A mutable reference to a device is a device: it hands every call on.
impl<'a, T: BlockDevice> BlockDevice for &'a mut T {
    open spec fn spec_sector_size(&self) -> u64 {
        (**self).spec_sector_size()
    }

    fn sector_size(&self) -> (size: u64) {
        (**self).sector_size()
    }

    fn read_sector(&mut self, n: u64, buf: &mut [u8]) -> (r: Result<usize, IoError>) {
        (**self).read_sector(n, buf)
    }

    fn write_sector(&mut self, n: u64, buf: &[u8]) -> (r: Result<usize, IoError>) {
        (**self).write_sector(n, buf)
    }

    fn read_all_sector(&mut self, n: u64, vec: &mut Vec<u8>) -> (r: Result<usize, IoError>) {
        (**self).read_all_sector(n, vec)
    }
}

} // verus!
