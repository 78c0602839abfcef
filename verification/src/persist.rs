//! The on-disk format of a database file: a magic number, then a zstd-compressed snapshot.
use vstd::prelude::*;

verus! {

/// The signature that starts every database file: `JIDB`.
pub open spec fn magic() -> Seq<u8> {
    seq![0x4Au8, 0x49u8, 0x44u8, 0x42u8]
}

/// The compression level of snapshots.
pub const COMPRESSION_LEVEL: i32 = 3;

/// The zstd frame that compressing `data` at `level` gives.
pub uninterp spec fn zstd_compressed(data: Seq<u8>, level: i32) -> Seq<u8>;

/// What decompressing the zstd frame `data` gives, or `None` when it is not a valid frame.
pub uninterp spec fn zstd_decompressed(data: Seq<u8>) -> Option<Seq<u8>>;

/// `zstd::encode_all` on `data` at `level`. Reading a slice and writing to a `Vec` cannot
/// fail and zstd clamps the level into range, so, as everywhere in this library, only running
/// out of memory could stop it: it succeeds.
#[verifier::external_body]
fn zstd_encode(data: &[u8], level: i32) -> (r: Result<Vec<u8>, String>)
    ensures
        r is Ok,
        r matches Ok(c) ==> c@ == zstd_compressed(data@, level),
{
    zstd::encode_all(data, level).map_err(|e| e.to_string())
}

/// `zstd::decode_all` on `data`. On failure it hands back the I/O error's text.
/// Decompression undoes compression at any level.
#[verifier::external_body]
fn zstd_decode(data: &[u8]) -> (r: Result<Vec<u8>, String>)
    ensures
        r is Ok <==> zstd_decompressed(data@) is Some,
        r matches Ok(v) ==> zstd_decompressed(data@) == Some(v@),
        forall|p: Seq<u8>, level: i32| data@ == #[trigger] zstd_compressed(p, level) ==> r is Ok,
        forall|p: Seq<u8>, level: i32| data@ == #[trigger] zstd_compressed(p, level) ==> (r matches Ok(v) ==> v@ == p),
{
    zstd::decode_all(data).map_err(|e| e.to_string())
}

/// Why a database file could not be read back.
#[derive(Debug)]
pub enum LoadError {
    /// The file is too short to hold the signature.
    Truncated,
    /// The file does not start with the signature.
    BadMagic,
    /// The payload is not a valid zstd frame (the decompressor's message).
    Decompress(String),
}

/// Compresses a serialized snapshot at [`COMPRESSION_LEVEL`].
pub fn compress_snapshot(serialized: &[u8]) -> (r: Result<Vec<u8>, String>)
    ensures
        r is Ok,
        r matches Ok(c) ==> c@ == zstd_compressed(serialized@, COMPRESSION_LEVEL),
{
    zstd_encode(serialized, COMPRESSION_LEVEL)
}

/// The database file for a compressed snapshot: the signature followed by the snapshot.
pub fn frame_database(compressed: &[u8]) -> (file: Vec<u8>)
    ensures
        file@ == magic() + compressed@,
{
    let mut file: Vec<u8> = vec![0x4Au8, 0x49u8, 0x44u8, 0x42u8];
    let mut i: usize = 0;
    proof {
        assert(file@ =~= magic() + compressed@.take(0));
    }
    while i < compressed.len()
        invariant
            i <= compressed@.len(),
            file@ == magic() + compressed@.take(i as int),
        decreases compressed@.len() - i,
    {
        file.push(compressed[i]);
        i += 1;
        proof {
            assert(file@ =~= magic() + compressed@.take(i as int));
        }
    }
    proof {
        assert(compressed@.take(compressed@.len() as int) =~= compressed@);
    }
    file
}

/// Checks the signature of a database file and decompresses its snapshot.
pub fn decode_database_file(file: &[u8]) -> (r: Result<Vec<u8>, LoadError>)
    ensures
        file@.len() < 4 ==> r matches Err(LoadError::Truncated),
        file@.len() >= 4 && file@.take(4) != magic() ==> r matches Err(LoadError::BadMagic),
        file@.len() >= 4 && file@.take(4) == magic() ==> match zstd_decompressed(file@.skip(4)) {
            Some(p) => r matches Ok(v) && v@ == p,
            None => r matches Err(LoadError::Decompress(_)),
        },
        // A file made by `frame_database` from a compressed snapshot reads back as that snapshot.
        forall|p: Seq<u8>, level: i32| file@ == magic() + #[trigger] zstd_compressed(p, level) ==> (r matches Ok(v) && v@ == p),
{
    if file.len() < 4 {
        return Err(LoadError::Truncated);
    }
    let (header, payload) = file.split_at(4);
    if !(header[0] == 0x4Au8 && header[1] == 0x49u8 && header[2] == 0x44u8 && header[3] == 0x42u8) {
        proof {
            if file@.take(4) == magic() {
                assert(header@ == file@.take(4));
                assert(header@[0] == magic()[0]);
            }
        }
        return Err(LoadError::BadMagic);
    }
    proof {
        assert(header@ =~= magic());
        assert(file@.take(4) =~= magic());
        assert(payload@ =~= file@.skip(4));
        assert forall|p: Seq<u8>, level: i32| file@ == magic() + #[trigger] zstd_compressed(p, level) implies payload@ == zstd_compressed(p, level) by {
            assert((magic() + zstd_compressed(p, level)).skip(4) =~= zstd_compressed(p, level));
        }
    }
    match zstd_decode(payload) {
        Ok(bytes) => Ok(bytes),
        Err(msg) => Err(LoadError::Decompress(msg)),
    }
}

} // verus!
