//! Plain request and response values of the bucket/object interface.
use vstd::prelude::*;

verus! {

/// A request to create the bucket `bucket_name`.
pub struct CreateBucketReq {
    pub bucket_name: String,
}

/// One bucket of a bucket listing.
pub struct ListBucketResp {
    pub bucket_name: String,
}

/// One object of an object listing.
pub struct ListObjectResp {
    pub object_name: String,
}

/// The bucket named in a request path.
pub struct BucketPath {
    pub bucket: String,
}

/// The object named in a request path.
pub struct ObjectPath {
    pub object: String,
}

/// Lowercase hexadecimal digit of `n`, for `n < 16`.
pub open spec fn hex_digit(n: int) -> char {
    seq!['0', '1', '2', '3', '4', '5', '6', '7', '8', '9', 'a', 'b', 'c', 'd', 'e', 'f'][n]
}

/// Each byte as two lowercase hexadecimal digits, high nibble first.
pub open spec fn hex_of(b: Seq<u8>) -> Seq<char>
    decreases b.len(),
{
    if b.len() == 0 {
        seq![]
    } else {
        let x = b.last() as int;
        hex_of(b.drop_last()) + seq![hex_digit(x / 16), hex_digit(x % 16)]
    }
}

/// Relies on `hex::encode`: each byte becomes two lowercase hexadecimal
/// digits, high nibble first, in the order of the bytes.
#[verifier::external_body]
fn encode_hex(data: &Vec<u8>) -> (r: String)
    ensures
        r@ == hex_of(data@),
{
    hex::encode(data)
}

/// The payload of an object as a lowercase hexadecimal string.
pub fn object_hex(data: &Vec<u8>) -> (r: String)
    ensures
        r@ == hex_of(data@),
        r@.len() == 2 * data@.len(),
{
    let r = encode_hex(data);
    proof {
        lemma_hex_len(data@);
    }
    r
}

proof fn lemma_hex_len(b: Seq<u8>)
    ensures
        hex_of(b).len() == 2 * b.len(),
    decreases b.len(),
{
    if b.len() > 0 {
        lemma_hex_len(b.drop_last());
    }
}

/// The names of a bucket listing, in order.
pub fn bucket_names(list: &Vec<ListBucketResp>) -> (r: Vec<String>)
    ensures
        r@.len() == list@.len(),
        forall|i: int| 0 <= i < r@.len() ==> #[trigger] r@[i]@ == list@[i].bucket_name@,
{
    let mut r: Vec<String> = Vec::new();
    let mut i: usize = 0;
    while i < list.len()
        invariant
            i <= list@.len(),
            r@.len() == i,
            forall|j: int| 0 <= j < i ==> #[trigger] r@[j]@ == list@[j].bucket_name@,
        decreases list@.len() - i,
    {
        r.push(list[i].bucket_name.clone());
        i = i + 1;
    }
    r
}

/// The keys of an object listing, in order.
pub fn object_names(list: &Vec<ListObjectResp>) -> (r: Vec<String>)
    ensures
        r@.len() == list@.len(),
        forall|i: int| 0 <= i < r@.len() ==> #[trigger] r@[i]@ == list@[i].object_name@,
{
    let mut r: Vec<String> = Vec::new();
    let mut i: usize = 0;
    while i < list.len()
        invariant
            i <= list@.len(),
            r@.len() == i,
            forall|j: int| 0 <= j < i ==> #[trigger] r@[j]@ == list@[j].object_name@,
        decreases list@.len() - i,
    {
        r.push(list[i].object_name.clone());
        i = i + 1;
    }
    r
}

} // verus!
