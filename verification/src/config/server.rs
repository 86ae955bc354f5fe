//! The registry that a server keeps: which devices may send samples, and
//! which digests mark an admin.

use vstd::prelude::*;
use vstd::string::StringExecFns;
use serde_json::Value;
use crate::json_handler::{
    distinct_keys,
    has_only,
    lemma_member_of,
    object_value,
    texts_value,
    truth_value,
    views,
    ToServerConfig,
};
use crate::socket_handling::identity::{digest, sha256_hex};

verus! {

/// Whether one of `texts` reads `wanted`.
pub open spec fn holds(texts: Seq<String>, wanted: Seq<char>) -> bool {
    exists|i: int| 0 <= i < texts.len() && #[trigger] texts[i]@ == wanted
}

/// The set of what `texts` read.
pub open spec fn text_set(texts: Seq<String>) -> Set<Seq<char>> {
    Set::new(|wanted: Seq<char>| holds(texts, wanted))
}

/// Whether one of `texts` reads as `wanted` does.
pub fn contains(texts: &Vec<String>, wanted: &String) -> (found: bool)
    ensures
        found == holds(texts@, wanted@),
{
    let mut i: usize = 0;
    while i < texts.len()
        invariant
            i <= texts.len(),
            forall|j: int| 0 <= j < i ==> (#[trigger] texts@[j])@ != wanted@,
        decreases texts.len() - i,
    {
        if texts[i] == *wanted {
            return true;
        }
        i = i + 1;
    }
    false
}

/// The registry of a server.
#[derive(Clone, Debug)]
pub struct ServerConfig {
    /// Identifiers of the devices that may send samples; their order means
    /// nothing
    pub registered_device_ids: Vec<String>,
    /// SHA-256 digests of the identifiers of the admins, never the
    /// identifiers themselves
    pub admin_ids: Vec<String>,
    /// True until the registry was first reconciled with the store
    pub first_run: bool,
}

impl ServerConfig {
    /// Builds a registry from its three fields.
    pub fn new(registered_device_ids: Vec<String>, admin_ids: Vec<String>, first_run: bool) -> (config:
        ServerConfig)
        ensures
            config.registered_device_ids == registered_device_ids,
            config.admin_ids == admin_ids,
            config.first_run == first_run,
    {
        ServerConfig { registered_device_ids, admin_ids, first_run }
    }

    /// The registry as the JSON document that is kept on disk: an object
    /// with the arrays of texts `registeredDeviceIDs` and `adminIDs` and the
    /// truth value `firstRun`. Reading the document gives the registry back.
    pub fn to_json(&self) -> (json: Value)
        ensures
            json.server_fields() == (
                views(self.registered_device_ids@),
                views(self.admin_ids@),
                self.first_run,
            ),
            has_only(json, set!["registeredDeviceIDs"@, "adminIDs"@, "firstRun"@]),
    {
        let mut members: Vec<(String, Value)> = Vec::new();
        members.push(
            (String::from_str("registeredDeviceIDs"), texts_value(&self.registered_device_ids)),
        );
        members.push((String::from_str("adminIDs"), texts_value(&self.admin_ids)));
        members.push((String::from_str("firstRun"), truth_value(self.first_run)));
        proof {
            reveal_strlit("registeredDeviceIDs");
            reveal_strlit("adminIDs");
            reveal_strlit("firstRun");
            assert(members@[0].0@ == "registeredDeviceIDs"@ && "registeredDeviceIDs"@.len() == 19);
            assert(members@[1].0@ == "adminIDs"@ && "adminIDs"@[0] == 'a');
            assert(members@[2].0@ == "firstRun"@ && "firstRun"@[0] == 'f');
            assert("adminIDs"@.len() == 8 && "firstRun"@.len() == 8);
            assert(distinct_keys(members@));
            lemma_member_of(members@, 0);
            lemma_member_of(members@, 1);
            lemma_member_of(members@, 2);
        }
        object_value(members)
    }

    /// The identifiers that may send samples.
    pub open spec fn registered(self) -> Set<Seq<char>> {
        text_set(self.registered_device_ids@)
    }

    /// The digests that mark an admin.
    pub open spec fn admins(self) -> Set<Seq<char>> {
        text_set(self.admin_ids@)
    }

    /// Whether `device_id`, as it is, is registered.
    pub fn is_registered(&self, device_id: &String) -> (registered: bool)
        ensures
            registered == self.registered().contains(device_id@),
    {
        contains(&self.registered_device_ids, device_id)
    }

    /// Whether `presented` is the digest of an admin. The value is compared
    /// as it is: a caller presents the digest, and nothing is hashed here.
    pub fn is_admin(&self, presented: &String) -> (admin: bool)
        ensures
            admin == self.admins().contains(presented@),
    {
        contains(&self.admin_ids, presented)
    }

    /// Registers `device_id`.
    pub fn register(&mut self, device_id: String)
        ensures
            final(self).registered() == old(self).registered().insert(device_id@),
            final(self).registered_device_ids@ == old(self).registered_device_ids@.push(device_id),
            final(self).admin_ids == old(self).admin_ids,
            final(self).first_run == old(self).first_run,
    {
        proof {
            lemma_text_set_push(self.registered_device_ids@, device_id);
        }
        self.registered_device_ids.push(device_id);
    }

    /// Takes `device_id` out of the registered devices, however often it
    /// stands there.
    pub fn unregister(&mut self, device_id: &String)
        ensures
            final(self).registered() == old(self).registered().remove(device_id@),
            final(self).registered_device_ids@.len() <= old(self).registered_device_ids@.len(),
            final(self).admin_ids == old(self).admin_ids,
            final(self).first_run == old(self).first_run,
    {
        let ghost before = self.registered_device_ids@;
        let mut kept: Vec<String> = Vec::new();
        let mut i: usize = 0;
        proof {
            lemma_text_set_empty(kept@);
            lemma_text_set_empty(before.take(0));
        }
        while i < self.registered_device_ids.len()
            invariant
                i <= self.registered_device_ids.len(),
                self.registered_device_ids@ == before,
                self.admin_ids == old(self).admin_ids,
                self.first_run == old(self).first_run,
                kept.len() <= i,
                text_set(kept@) == text_set(before.take(i as int)).remove(device_id@),
            decreases self.registered_device_ids.len() - i,
        {
            proof {
                assert(before.take(i + 1) =~= before.take(i as int).push(before[i as int]));
                lemma_text_set_push(before.take(i as int), before[i as int]);
            }
            if !(self.registered_device_ids[i] == *device_id) {
                let copy = self.registered_device_ids[i].clone();
                proof {
                    lemma_text_set_push(kept@, copy);
                }
                kept.push(copy);
            }
            i = i + 1;
            assert(text_set(kept@) =~= text_set(before.take(i as int)).remove(device_id@));
        }
        proof {
            assert(before.take(before.len() as int) =~= before);
        }
        self.registered_device_ids = kept;
    }

    /// Makes the device with the identifier `raw_device_id` an admin: what
    /// is stored is the identifier's digest.
    pub fn add_admin(&mut self, raw_device_id: &str)
        ensures
            final(self).admins() == old(self).admins().insert(sha256_hex(raw_device_id@)),
            final(self).registered_device_ids == old(self).registered_device_ids,
            final(self).first_run == old(self).first_run,
    {
        let hex = digest(raw_device_id);
        proof {
            lemma_text_set_push(self.admin_ids@, hex);
        }
        self.admin_ids.push(hex);
    }

    /// Seeds the registry from the identifiers found in the store, and
    /// marks the first run as over.
    pub fn reconcile(&mut self, store_ids: Vec<String>)
        ensures
            final(self).registered() == old(self).registered().union(text_set(store_ids@)),
            final(self).admin_ids == old(self).admin_ids,
            !final(self).first_run,
    {
        let ghost before = self.registered_device_ids@;
        let mut i: usize = 0;
        proof {
            lemma_text_set_empty(store_ids@.take(0));
            assert(text_set(before) =~= text_set(before).union(text_set(store_ids@.take(0))));
        }
        while i < store_ids.len()
            invariant
                i <= store_ids.len(),
                self.admin_ids == old(self).admin_ids,
                self.registered() == text_set(before).union(text_set(store_ids@.take(i as int))),
            decreases store_ids.len() - i,
        {
            let copy = store_ids[i].clone();
            proof {
                assert(store_ids@.take(i + 1) =~= store_ids@.take(i as int).push(
                    store_ids@[i as int],
                ));
                lemma_text_set_push(store_ids@.take(i as int), store_ids@[i as int]);
            }
            self.register(copy);
            i = i + 1;
            assert(self.registered() =~= text_set(before).union(
                text_set(store_ids@.take(i as int)),
            ));
        }
        proof {
            assert(store_ids@.take(store_ids.len() as int) =~= store_ids@);
        }
        self.first_run = false;
    }
}

/// No text is held where there is none.
pub proof fn lemma_text_set_empty(texts: Seq<String>)
    requires
        texts.len() == 0,
    ensures
        text_set(texts) == Set::<Seq<char>>::empty(),
{
    assert(text_set(texts) =~= Set::<Seq<char>>::empty());
}

/// One more text adds what it reads to the set.
pub proof fn lemma_text_set_push(texts: Seq<String>, added: String)
    ensures
        text_set(texts.push(added)) == text_set(texts).insert(added@),
{
    let after = texts.push(added);
    assert forall|wanted: Seq<char>|
        holds(after, wanted) <==> (wanted == added@ || holds(texts, wanted)) by {
        if holds(texts, wanted) {
            let i = choose|i: int| 0 <= i < texts.len() && #[trigger] texts[i]@ == wanted;
            assert(after[i]@ == wanted);
        }
        if wanted == added@ {
            assert(after[texts.len() as int]@ == wanted);
        }
        if holds(after, wanted) {
            let i = choose|i: int| 0 <= i < after.len() && #[trigger] after[i]@ == wanted;
            if i < texts.len() {
                assert(texts[i]@ == wanted);
            }
        }
    }
    assert(text_set(after) =~= text_set(texts).insert(added@));
}

} // verus!
