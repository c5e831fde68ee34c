//! The request that starts a transfer.

use vstd::prelude::*;
use vstd::string::StringSliceAdditionalSpecFns;
use vstd::utf8::encode_utf8;

verus! {

/// Where a transfer fetches from: the host that is named in the request, and
/// the path of the resource.
#[derive(Debug, PartialEq, Eq)]
pub struct Target {
    /// The host, as it is to stand in the `Host` header.
    pub host: String,
    /// The path of the resource, as it is to stand in the request line.
    pub path: String,
}

/// The bytes of `GET `.
pub open spec fn method_bytes() -> Seq<u8> {
    seq![71u8, 69u8, 84u8, 32u8]
}

/// The bytes of ` HTTP/1.1`, CR LF and `Host: `.
pub open spec fn version_and_host_bytes() -> Seq<u8> {
    seq![
        32u8, 72u8, 84u8, 84u8, 80u8, 47u8, 49u8, 46u8, 49u8, 13u8, 10u8,
        72u8, 111u8, 115u8, 116u8, 58u8, 32u8,
    ]
}

/// The bytes of CR LF CR LF: the end of the `Host` line, and the empty line
/// that ends the request.
pub open spec fn end_bytes() -> Seq<u8> {
    seq![13u8, 10u8, 13u8, 10u8]
}

/// The request for `path` at `host`: the request line, the `Host` header and
/// the empty line, and nothing else.
pub open spec fn request_bytes(path: Seq<u8>, host: Seq<u8>) -> Seq<u8> {
    method_bytes() + path + version_and_host_bytes() + host + end_bytes()
}

/// Appends `bytes` to `out`.
fn append(out: &mut Vec<u8>, bytes: &[u8])
    ensures
        final(out)@ == old(out)@ + bytes@,
{
    let len: usize = bytes.len();
    let mut k: usize = 0;
    while k < len
        invariant
            k <= len,
            len == bytes@.len(),
            out@ == old(out)@ + bytes@.take(k as int),
        decreases len - k,
    {
        out.push(bytes[k]);
        assert(bytes@.take(k + 1) =~= bytes@.take(k as int).push(bytes@[k as int]));
        k = k + 1;
    }
    assert(bytes@.take(len as int) =~= bytes@);
}

/// Writes the request for `path` at `host`, each in its UTF-8 bytes.
pub fn request(path: &str, host: &str) -> (out: Vec<u8>)
    ensures
        out@ == request_bytes(encode_utf8(path@), encode_utf8(host@)),
{
    let method: [u8; 4] = [71, 69, 84, 32];
    let version_and_host: [u8; 17] = [
        32, 72, 84, 84, 80, 47, 49, 46, 49, 13, 10,
        72, 111, 115, 116, 58, 32,
    ];
    let end: [u8; 4] = [13, 10, 13, 10];
    assert(method@ =~= method_bytes());
    assert(version_and_host@ =~= version_and_host_bytes());
    assert(end@ =~= end_bytes());
    let mut out: Vec<u8> = Vec::new();
    append(&mut out, method.as_slice());
    append(&mut out, path.as_bytes());
    append(&mut out, version_and_host.as_slice());
    append(&mut out, host.as_bytes());
    append(&mut out, end.as_slice());
    out
}

impl Target {
    /// The request that fetches this target.
    pub fn request(&self) -> (out: Vec<u8>)
        ensures
            out@ == request_bytes(encode_utf8(self.path@), encode_utf8(self.host@)),
    {
        request(self.path.as_str(), self.host.as_str())
    }
}

} // verus!
