//! The in-memory object store behind the S3-compatible server: buckets by
//! name, each holding objects by key.
use vstd::prelude::*;
use crate::assoc::{assoc_keys, assoc_map, lemma_assoc_dom, lemma_assoc_index, lemma_assoc_push, lemma_assoc_remove};
use crate::json::push_bytes;
use crate::text::str_eq;

verus! {

/// Why a store request fails (the S3 error codes the server answers with).
#[derive(Clone, Copy, Debug, PartialEq, Eq)]
pub enum StoreError {
    BucketAlreadyExists,
    NoSuchBucket,
    NoSuchKey,
    InvalidRequestBody,
    InternalError,
}

/// An object as a read returns it: its bytes and their count.
pub struct StoredObject {
    pub body: Vec<u8>,
    pub content_length: i64,
}

struct Bucket {
    name: String,
    objects: Vec<(String, Vec<u8>)>,
}

/// Buckets by name, each mapping object keys to bytes.
pub struct ObjectStore {
    buckets: Vec<Bucket>,
}

spec fn objects_assoc(objs: Seq<(String, Vec<u8>)>) -> Seq<(Seq<char>, Seq<u8>)> {
    objs.map_values(|p: (String, Vec<u8>)| (p.0@, p.1@))
}

spec fn bucket_entry(b: Bucket) -> (Seq<char>, Map<Seq<char>, Seq<u8>>) {
    (b.name@, assoc_map(objects_assoc(b.objects@)))
}

spec fn buckets_assoc(bs: Seq<Bucket>) -> Seq<(Seq<char>, Map<Seq<char>, Seq<u8>>)> {
    bs.map_values(|b: Bucket| bucket_entry(b))
}

fn find_key(objects: &Vec<(String, Vec<u8>)>, key: &str) -> (r: Option<usize>)
    ensures
        match r {
            Some(j) => j < objects@.len() && objects@[j as int].0@ == key@,
            None => !assoc_map(objects_assoc(objects@)).dom().contains(key@),
        },
{
    let mut j: usize = 0;
    while j < objects.len()
        invariant
            j <= objects@.len(),
            forall|t: int| 0 <= t < j ==> objects@[t].0@ != key@,
        decreases objects@.len() - j,
    {
        if str_eq(objects[j].0.as_str(), key) {
            return Some(j);
        }
        j = j + 1;
    }
    proof {
        let oa = objects_assoc(objects@);
        lemma_assoc_dom(oa);
        if assoc_keys(oa).contains(key@) {
            let t = choose|t: int| 0 <= t < assoc_keys(oa).len() && assoc_keys(oa)[t] == key@;
            assert(assoc_keys(oa)[t] == objects@[t].0@);
        }
    }
    None
}

impl ObjectStore {
    /// The stored objects: bucket name to (object key to bytes).
    pub closed spec fn contents(&self) -> Map<Seq<char>, Map<Seq<char>, Seq<u8>>> {
        assoc_map(buckets_assoc(self.buckets@))
    }

    /// Bucket names are distinct, and so are object keys within a bucket.
    pub closed spec fn wf(&self) -> bool {
        &&& assoc_keys(buckets_assoc(self.buckets@)).no_duplicates()
        &&& forall|i: int| 0 <= i < self.buckets@.len()
            ==> #[trigger] assoc_keys(objects_assoc(self.buckets@[i].objects@)).no_duplicates()
    }

    /// A store with no bucket.
    pub fn new() -> (r: ObjectStore)
        ensures
            r.wf(),
            r.contents() == Map::<Seq<char>, Map<Seq<char>, Seq<u8>>>::empty(),
    {
        let r = ObjectStore { buckets: Vec::new() };
        assert(buckets_assoc(r.buckets@) =~= Seq::empty());
        assert(assoc_keys(buckets_assoc(r.buckets@)) =~= Seq::empty());
        r
    }

    fn find_bucket(&self, name: &str) -> (r: Option<usize>)
        requires
            self.wf(),
        ensures
            match r {
                Some(i) => i < self.buckets@.len() && self.buckets@[i as int].name@ == name@,
                None => !self.contents().dom().contains(name@),
            },
    {
        let mut i: usize = 0;
        while i < self.buckets.len()
            invariant
                i <= self.buckets@.len(),
                forall|j: int| 0 <= j < i ==> self.buckets@[j].name@ != name@,
            decreases self.buckets@.len() - i,
        {
            if str_eq(self.buckets[i].name.as_str(), name) {
                return Some(i);
            }
            i = i + 1;
        }
        proof {
            lemma_assoc_dom(buckets_assoc(self.buckets@));
            let ks = assoc_keys(buckets_assoc(self.buckets@));
            if ks.contains(name@) {
                let j = choose|j: int| 0 <= j < ks.len() && ks[j] == name@;
                assert(ks[j] == self.buckets@[j].name@);
            }
        }
        None
    }

    /// Creates an empty bucket, unless one of that name exists.
    pub fn create_bucket(&mut self, bucket: String) -> (r: Result<(), StoreError>)
        requires
            old(self).wf(),
        ensures
            final(self).wf(),
            old(self).contents().dom().contains(bucket@) ==> r == Err::<(), StoreError>(StoreError::BucketAlreadyExists)
                && final(self).contents() == old(self).contents(),
            !old(self).contents().dom().contains(bucket@) ==> r is Ok
                && final(self).contents() == old(self).contents().insert(bucket@, Map::empty()),
    {
        match self.find_bucket(bucket.as_str()) {
            Some(i) => {
                proof {
                    lemma_assoc_index(buckets_assoc(self.buckets@), i as int);
                }
                Err(StoreError::BucketAlreadyExists)
            },
            None => {
                let ghost old_bs = self.buckets@;
                let nb = Bucket { name: bucket, objects: Vec::new() };
                proof {
                    lemma_assoc_dom(buckets_assoc(old_bs));
                    assert(objects_assoc(nb.objects@) =~= Seq::empty());
                    assert(assoc_keys(objects_assoc(nb.objects@)) =~= Seq::empty());
                    assert(assoc_map(objects_assoc(nb.objects@)) =~= Map::empty());
                }
                self.buckets.push(nb);
                proof {
                    assert(buckets_assoc(self.buckets@) =~= buckets_assoc(old_bs).push(bucket_entry(nb)));
                    lemma_assoc_push(buckets_assoc(old_bs), bucket_entry(nb));
                    assert forall|i: int| 0 <= i < self.buckets@.len()
                        implies #[trigger] assoc_keys(objects_assoc(self.buckets@[i].objects@)).no_duplicates() by {
                        if i < old_bs.len() {
                            assert(self.buckets@[i] == old_bs[i]);
                        }
                    }
                }
                Ok(())
            },
        }
    }

    /// Stores an object under `key` in `bucket`, replacing any object there.
    /// `body` is the request body as read: `None` when the request has none,
    /// `Some(Err(()))` when reading it failed.
    pub fn put_object(&mut self, bucket: &str, key: String, body: Option<Result<Vec<u8>, ()>>) -> (r: Result<(), StoreError>)
        requires
            old(self).wf(),
        ensures
            final(self).wf(),
            r is Err ==> final(self).contents() == old(self).contents(),
            !old(self).contents().dom().contains(bucket@) ==> r == Err::<(), StoreError>(StoreError::NoSuchBucket),
            old(self).contents().dom().contains(bucket@) && body is None
                ==> r == Err::<(), StoreError>(StoreError::InvalidRequestBody),
            old(self).contents().dom().contains(bucket@) ==> ((body matches Some(Err(_)))
                ==> r == Err::<(), StoreError>(StoreError::InternalError)),
            old(self).contents().dom().contains(bucket@) ==> (body matches Some(Ok(data)) ==> {
                &&& r is Ok
                &&& final(self).contents() == old(self).contents().insert(
                    bucket@,
                    old(self).contents()[bucket@].insert(key@, data@),
                )
            }),
    {
        let i = match self.find_bucket(bucket) {
            Some(i) => i,
            None => return Err(StoreError::NoSuchBucket),
        };
        proof {
            lemma_assoc_index(buckets_assoc(self.buckets@), i as int);
        }
        let data = match body {
            None => return Err(StoreError::InvalidRequestBody),
            Some(Err(_)) => return Err(StoreError::InternalError),
            Some(Ok(data)) => data,
        };
        let ghost old_bs = self.buckets@;
        let ghost old_map = self.contents();
        let b = self.buckets.remove(i);
        let Bucket { name, objects } = b;
        let mut objects = objects;
        let ghost old_objs = objects@;
        proof {
            assert(assoc_keys(objects_assoc(old_objs)).no_duplicates());
        }
        let found = find_key(&objects, key.as_str());
        let ghost oa = objects_assoc(old_objs);
        let ghost base: Seq<(Seq<char>, Seq<u8>)>;
        match found {
            Some(j) => {
                proof {
                    assert(oa[j as int].0 == key@);
                    lemma_assoc_remove(oa, j as int);
                    assert(objects_assoc(old_objs.remove(j as int)) =~= oa.remove(j as int));
                    base = oa.remove(j as int);
                }
                objects.remove(j);
            },
            None => {
                proof {
                    lemma_assoc_dom(oa);
                    assert(assoc_map(oa).remove(key@) =~= assoc_map(oa));
                    base = oa;
                }
            },
        }
        let ghost dv = data@;
        let ghost kv = key@;
        objects.push((key, data));
        proof {
            assert(objects_assoc(objects@) =~= base.push((kv, dv)));
            lemma_assoc_push(base, (kv, dv));
            assert(assoc_map(objects_assoc(objects@)) =~= assoc_map(oa).insert(kv, dv));
        }
        let nb = Bucket { name, objects };
        self.buckets.push(nb);
        proof {
            let ba = buckets_assoc(old_bs);
            lemma_assoc_remove(ba, i as int);
            assert(buckets_assoc(old_bs.remove(i as int)) =~= ba.remove(i as int));
            assert(buckets_assoc(self.buckets@) =~= ba.remove(i as int).push(bucket_entry(nb)));
            lemma_assoc_push(ba.remove(i as int), bucket_entry(nb));
            assert(bucket_entry(nb).0 == bucket@);
            assert(old_map[bucket@] == assoc_map(oa));
            assert(self.contents() =~= old_map.insert(bucket@, old_map[bucket@].insert(kv, dv)));
            assert forall|t: int| 0 <= t < self.buckets@.len()
                implies #[trigger] assoc_keys(objects_assoc(self.buckets@[t].objects@)).no_duplicates() by {
                if t < old_bs.len() - 1 {
                    let t2 = if t < i { t } else { t + 1 };
                    assert(self.buckets@[t] == old_bs[t2]);
                }
            }
        }
        Ok(())
    }

    /// Reads the object under `key` in `bucket`.
    pub fn get_object(&self, bucket: &str, key: &str) -> (r: Result<StoredObject, StoreError>)
        requires
            self.wf(),
        ensures
            !self.contents().dom().contains(bucket@) ==> (r matches Err(StoreError::NoSuchBucket)),
            self.contents().dom().contains(bucket@) && !self.contents()[bucket@].dom().contains(key@)
                ==> (r matches Err(StoreError::NoSuchKey)),
            self.contents().dom().contains(bucket@) && self.contents()[bucket@].dom().contains(key@) ==> {
                &&& r matches Ok(obj)
                &&& obj.body@ == self.contents()[bucket@][key@]
                &&& obj.content_length == #[verifier::truncate] (obj.body@.len() as i64)
            },
    {
        let i = match self.find_bucket(bucket) {
            Some(i) => i,
            None => return Err(StoreError::NoSuchBucket),
        };
        proof {
            lemma_assoc_index(buckets_assoc(self.buckets@), i as int);
        }
        let objects = &self.buckets[i].objects;
        let ghost oa = objects_assoc(objects@);
        proof {
            assert(assoc_keys(oa).no_duplicates());
        }
        match find_key(objects, key) {
            Some(j) => {
                proof {
                    lemma_assoc_index(oa, j as int);
                }
                let mut body: Vec<u8> = Vec::new();
                push_bytes(&mut body, objects[j].1.as_slice());
                assert(body@ =~= objects@[j as int].1@);
                let content_length = body.len() as i64;
                Ok(StoredObject { body, content_length })
            },
            None => Err(StoreError::NoSuchKey),
        }
    }
}

/// A read after a successful write gives back what was written, and the
/// write leaves every other object and bucket as it was.
pub proof fn law_get_after_put(
    c: Map<Seq<char>, Map<Seq<char>, Seq<u8>>>,
    bucket: Seq<char>,
    key: Seq<char>,
    data: Seq<u8>,
)
    requires
        c.dom().contains(bucket),
    ensures
        ({
            let after = c.insert(bucket, c[bucket].insert(key, data));
            &&& after.dom() == c.dom()
            &&& after[bucket].dom().contains(key)
            &&& after[bucket][key] == data
            &&& forall|k: Seq<char>| k != key && #[trigger] c[bucket].dom().contains(k)
                ==> after[bucket].dom().contains(k) && after[bucket][k] == c[bucket][k]
            &&& forall|b: Seq<char>| b != bucket && #[trigger] c.dom().contains(b) ==> after[b] == c[b]
        }),
{
    let after = c.insert(bucket, c[bucket].insert(key, data));
    assert(after.dom() =~= c.dom());
}

} // verus!
