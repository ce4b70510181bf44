//! Data shared between all connected clients.
use crate::json::json_object;
use crate::json::json_object_string;
use crate::json::number_fields;
use crate::json::text_fields;
use crate::keyed::bytes_equal;
use crate::keyed::KeyedList;
use crate::text::utf8_to_string;
use crate::types::avatars::Avatar;
use crate::types::avatars::Avatars;
use crate::types::channel::send_packet;
use crate::types::channel::Delivery;
use crate::types::channel::Outbox;
use crate::types::channel::Tx;
use crate::types::config::Config;
use vstd::prelude::*;
use vstd::slice::slice_to_vec;
use vstd::string::StrSliceExecFns;
use vstd::utf8::decode_utf8;
use vstd::utf8::encode_utf8;
use vstd::utf8::valid_utf8;

verus! {

/// The `remove_avatar` operation for the entity whose key reads `key`, as
/// JSON.
pub open spec fn remove_avatar_json(key: Seq<char>) -> Seq<char> {
    json_object(seq![("_op"@, "remove_avatar"@), ("key"@, key)], seq![])
}

/// The `update_avatar` operation carrying `value` from the entity whose key
/// reads `key`, as JSON.
pub open spec fn update_avatar_json(key: Seq<char>, value: Seq<char>) -> Seq<char> {
    json_object(seq![("_op"@, "update_avatar"@), ("key"@, key), ("value"@, value)], seq![])
}

/// The entity channels went from `pre` to `post` by announcing `update` to
/// the master entity `master`: if the master is registered, its channel,
/// and no other, is handed `update`, and `delivery` is `Accepted` or
/// `Refused` as the channel took or refused it; otherwise no channel is
/// handed anything and `delivery` is `Unsent`.
pub open spec fn announced(
    pre: Map<Seq<u8>, Outbox>,
    post: Map<Seq<u8>, Outbox>,
    master: Seq<u8>,
    update: Seq<char>,
    delivery: Delivery,
) -> bool {
    if pre.dom().contains(master) {
        &&& delivery != Delivery::Unsent
        &&& post == pre.insert(master, post[master])
        &&& post[master].sender() == pre[master].sender()
        &&& post[master].sent() == pre[master].sent().push((update, delivery == Delivery::Accepted))
    } else {
        &&& delivery == Delivery::Unsent
        &&& post == pre
    }
}

/// Data shared between all connected clients.
pub struct Session {
    pub config: Config,
    pub avatars: Avatars,
    /// The channel of each connected entity, by entity key.
    pub entities: KeyedList<Outbox>,
    pub master_key: Vec<u8>,
}

/// What `add_entity` does: a fresh outbox for the entity's channel is
/// registered under its key; the entity is the master exactly when its key
/// is the master key, and then nothing is sent; any other entity gets a
/// freshly drawn avatar, announced to the master.
pub open spec fn add_entity_post(
    pre: Session,
    post: Session,
    key: Seq<u8>,
    tx: Tx,
    is_master: bool,
    delivery: Delivery,
) -> bool {
    &&& post.wf()
    &&& is_master == (key == pre.master_key@)
    &&& post.entities@.dom().contains(key)
    &&& post.entities@[key].sender() == tx
    &&& post.entities@[key].sent() == Seq::<(Seq<char>, bool)>::empty()
    &&& post.master_key == pre.master_key
    &&& post.config == pre.config
    &&& if is_master {
        &&& post.entities@ == pre.entities@.insert(key, post.entities@[key])
        &&& post.avatars@ == pre.avatars@
        &&& delivery == Delivery::Unsent
    } else {
        &&& post.avatars@ == pre.avatars@.insert(key, post.avatars@[key])
        &&& post.avatars@[key].is_new_for(decode_utf8(key))
        &&& announced(
            pre.entities@.insert(key, post.entities@[key]),
            post.entities@,
            pre.master_key@,
            post.avatars@[key].json(),
            delivery,
        )
    }
}

/// What `remove_entity` does: the entity's channel and avatar are dropped,
/// and the master, if it is still registered, is told.
pub open spec fn remove_entity_post(pre: Session, post: Session, key: Seq<u8>, delivery: Delivery) -> bool {
    &&& post.wf()
    &&& post.avatars@ == pre.avatars@.remove(key)
    &&& post.master_key == pre.master_key
    &&& post.config == pre.config
    &&& announced(
        pre.entities@.remove(key),
        post.entities@,
        pre.master_key@,
        remove_avatar_json(decode_utf8(key)),
        delivery,
    )
}

impl Session {
    /// The entity and avatar maps hold distinct keys.
    pub open spec fn wf(self) -> bool {
        &&& self.avatars.wf()
        &&& self.entities.wf()
    }

    /// The master entity is connected.
    pub open spec fn master_connected(self) -> bool {
        self.entities@.dom().contains(self.master_key@)
    }

    /// A session with no entities connected, whose master key is the UTF-8
    /// encoding of `config.master_key`.
    pub fn new(config: Config, avatars: Avatars) -> (session: Self)
        requires
            avatars.wf(),
        ensures
            session.wf(),
            session.config == config,
            session.avatars == avatars,
            session.entities@ == Map::<Seq<u8>, Outbox>::empty(),
            session.master_key@ == encode_utf8(config.master_key@),
    {
        let master_key = config.master_key.as_str().as_bytes_vec();
        Session { avatars: avatars, config: config, entities: KeyedList::new(), master_key: master_key }
    }

    /// Registers the channel of the entity `entity_key` and returns whether
    /// it is the master; any other entity gets an avatar, announced to the
    /// master with the returned outcome.
    pub fn add_entity(&mut self, entity_key: &[u8], tx: Tx) -> (result: (bool, Delivery))
        requires
            old(self).wf(),
            entity_key@ == old(self).master_key@ || valid_utf8(entity_key@),
        ensures
            add_entity_post(*old(self), *final(self), entity_key@, tx, result.0, result.1),
            !result.0 ==> final(self).avatars@[entity_key@].key@ == decode_utf8(entity_key@),
            !result.0 && old(self).master_connected() ==> ({
                let m = old(self).master_key@;
                let a = final(self).avatars@[entity_key@];
                final(self).entities@[m].sent() == old(self).entities@[m].sent().push(
                    (json_object(
                    seq![("_op"@, "add_avatar"@), ("key"@, a.key@)],
                    seq![
                        ("speed"@, a.speed as int),
                        ("r"@, a.r as int),
                        ("g"@, a.g as int),
                        ("b"@, a.b as int),
                        ("x"@, a.x as int),
                        ("y"@, a.y as int),
                        ("x_velocity"@, a.x_velocity as int),
                        ("y_velocity"@, a.y_velocity as int),
                    ],
                ), result.1 == Delivery::Accepted),
                )
            }),
    {
        self.entities.insert(slice_to_vec(entity_key), Outbox::new(tx));
        if bytes_equal(self.master_key.as_slice(), entity_key) {
            (true, Delivery::Unsent)
        } else {
            let delivery = self.add_avatar(entity_key);
            (false, delivery)
        }
    }

    /// Drops the channel and the avatar of the entity `entity_key` and tells
    /// the master.
    pub fn remove_entity(&mut self, entity_key: &[u8]) -> (delivery: Delivery)
        requires
            old(self).wf(),
            valid_utf8(entity_key@),
        ensures
            remove_entity_post(*old(self), *final(self), entity_key@, delivery),
            entity_key@ != old(self).master_key@ && old(self).master_connected() ==> ({
                let m = old(self).master_key@;
                final(self).entities@[m].sent() == old(self).entities@[m].sent().push(
                    (
                        json_object(
                            seq![("_op"@, "remove_avatar"@), ("key"@, decode_utf8(entity_key@))],
                            seq![],
                        ),
                        delivery == Delivery::Accepted,
                    ),
                )
            }),
    {
        let _ = self.entities.remove(entity_key);
        let _ = self.avatars.remove(entity_key);
        let key = match utf8_to_string(entity_key) {
            Some(key) => key,
            None => {
                return Delivery::Unsent;
            },
        };
        let texts = vec![("_op".to_owned(), "remove_avatar".to_owned()), ("key".to_owned(), key)];
        let numbers: Vec<(String, i64)> = Vec::new();
        proof {
            assert(text_fields(texts@) =~= seq![
                ("_op"@, "remove_avatar"@),
                ("key"@, decode_utf8(entity_key@)),
            ]);
            assert(number_fields(numbers@) =~= Seq::<(Seq<char>, int)>::empty());
        }
        let op = json_object_string(&texts, &numbers);
        self.push_update(op)
    }

    /// Draws an avatar for the entity `entity_key`, announces it to the
    /// master and stores it.
    pub fn add_avatar(&mut self, entity_key: &[u8]) -> (delivery: Delivery)
        requires
            old(self).wf(),
            valid_utf8(entity_key@),
        ensures
            final(self).avatars@[entity_key@].key@ == decode_utf8(entity_key@),
            old(self).master_connected() ==> ({
                let m = old(self).master_key@;
                let a = final(self).avatars@[entity_key@];
                final(self).entities@[m].sent() == old(self).entities@[m].sent().push(
                    (json_object(
                    seq![("_op"@, "add_avatar"@), ("key"@, a.key@)],
                    seq![
                        ("speed"@, a.speed as int),
                        ("r"@, a.r as int),
                        ("g"@, a.g as int),
                        ("b"@, a.b as int),
                        ("x"@, a.x as int),
                        ("y"@, a.y as int),
                        ("x_velocity"@, a.x_velocity as int),
                        ("y_velocity"@, a.y_velocity as int),
                    ],
                ), delivery == Delivery::Accepted),
                )
            }),
            final(self).wf(),
            final(self).avatars@ == old(self).avatars@.insert(
                entity_key@,
                final(self).avatars@[entity_key@],
            ),
            final(self).avatars@[entity_key@].is_new_for(decode_utf8(entity_key@)),
            announced(
                old(self).entities@,
                final(self).entities@,
                old(self).master_key@,
                final(self).avatars@[entity_key@].json(),
                delivery,
            ),
            final(self).master_key == old(self).master_key,
            final(self).config == old(self).config,
    {
        let key = match utf8_to_string(entity_key) {
            Some(key) => key,
            None => {
                return Delivery::Unsent;
            },
        };
        let avatar = Avatar::random(key);
        let op = avatar.to_json();
        let delivery = self.push_update(op);
        self.avatars.insert(slice_to_vec(entity_key), avatar);
        delivery
    }

    /// Hands `serialized` to the channel of the master entity, and to no
    /// other, if the master is connected.
    pub fn push_update(&mut self, serialized: String) -> (delivery: Delivery)
        requires
            old(self).wf(),
        ensures
            final(self).wf(),
            announced(
                old(self).entities@,
                final(self).entities@,
                old(self).master_key@,
                serialized@,
                delivery,
            ),
            final(self).avatars == old(self).avatars,
            final(self).master_key == old(self).master_key,
            final(self).config == old(self).config,
    {
        let ghost pre = self.entities@;
        let ghost master = self.master_key@;
        match self.entities.remove(self.master_key.as_slice()) {
            Some(mut outbox) => {
                let accepted = send_packet(&mut outbox, &serialized);
                self.entities.insert(slice_to_vec(self.master_key.as_slice()), outbox);
                proof {
                    assert(self.entities@ =~= pre.insert(master, self.entities@[master]));
                }
                if accepted {
                    Delivery::Accepted
                } else {
                    Delivery::Refused
                }
            },
            None => {
                proof {
                    assert(self.entities@ =~= pre);
                }
                Delivery::Unsent
            },
        }
    }

    /// Tells the master that the entity `entity_key` sent `message`.
    pub fn handle_message(&mut self, entity_key: &[u8], message: String) -> (delivery: Delivery)
        requires
            old(self).wf(),
            valid_utf8(entity_key@),
        ensures
            old(self).master_connected() ==> ({
                let m = old(self).master_key@;
                final(self).entities@[m].sent() == old(self).entities@[m].sent().push(
                    (
                        json_object(
                            seq![
                                ("_op"@, "update_avatar"@),
                                ("key"@, decode_utf8(entity_key@)),
                                ("value"@, message@),
                            ],
                            seq![],
                        ),
                        delivery == Delivery::Accepted,
                    ),
                )
            }),
            final(self).wf(),
            announced(
                old(self).entities@,
                final(self).entities@,
                old(self).master_key@,
                update_avatar_json(decode_utf8(entity_key@), message@),
                delivery,
            ),
            final(self).avatars == old(self).avatars,
            final(self).master_key == old(self).master_key,
            final(self).config == old(self).config,
    {
        let key = match utf8_to_string(entity_key) {
            Some(key) => key,
            None => {
                return Delivery::Unsent;
            },
        };
        let ghost value = message@;
        let texts = vec![
            ("_op".to_owned(), "update_avatar".to_owned()),
            ("key".to_owned(), key),
            ("value".to_owned(), message),
        ];
        let numbers: Vec<(String, i64)> = Vec::new();
        proof {
            assert(text_fields(texts@) =~= seq![
                ("_op"@, "update_avatar"@),
                ("key"@, decode_utf8(entity_key@)),
                ("value"@, value),
            ]);
            assert(number_fields(numbers@) =~= Seq::<(Seq<char>, int)>::empty());
        }
        let op = json_object_string(&texts, &numbers);
        self.push_update(op)
    }
}

/// An announcement reaches the master's channel and no other: every other
/// channel is left exactly as it was, and the master's channel, when it is
/// registered, is handed exactly the one update.
pub proof fn law_only_master_hears(
    pre: Map<Seq<u8>, Outbox>,
    post: Map<Seq<u8>, Outbox>,
    master: Seq<u8>,
    update: Seq<char>,
    delivery: Delivery,
)
    requires
        announced(pre, post, master, update, delivery),
    ensures
        post.dom() == pre.dom(),
        forall|k: Seq<u8>| #[trigger] pre.dom().contains(k) && k != master ==> post[k] == pre[k],
        pre.dom().contains(master) ==> post[master].sent() == pre[master].sent().push(
            (update, delivery == Delivery::Accepted),
        ),
        !pre.dom().contains(master) ==> post == pre && delivery == Delivery::Unsent,
{
    if pre.dom().contains(master) {
        assert(post.dom() =~= pre.dom());
    }
}

/// An entity that connects and then disconnects leaves the avatars as they
/// were and every channel but the master's as it was, when its key held
/// neither an entity nor an avatar before; a connected master is handed
/// exactly the avatar's announcement and then its removal.
pub proof fn law_connect_then_disconnect(
    s0: Session,
    s1: Session,
    s2: Session,
    key: Seq<u8>,
    tx: Tx,
    is_master: bool,
    d1: Delivery,
    d2: Delivery,
)
    requires
        s0.wf(),
        add_entity_post(s0, s1, key, tx, is_master, d1),
        remove_entity_post(s1, s2, key, d2),
        !s0.entities@.dom().contains(key),
        !s0.avatars@.dom().contains(key),
    ensures
        s2.avatars@ == s0.avatars@,
        s2.entities@.dom() == s0.entities@.dom(),
        forall|k: Seq<u8>|
            #[trigger] s0.entities@.dom().contains(k) && k != s0.master_key@ ==> s2.entities@[k]
                == s0.entities@[k],
        !is_master && s0.master_connected() ==> s2.entities@[s0.master_key@].sent()
            == s0.entities@[s0.master_key@].sent().push(
            (s1.avatars@[key].json(), d1 == Delivery::Accepted),
        ).push((remove_avatar_json(decode_utf8(key)), d2 == Delivery::Accepted)),
{
    assert(s2.avatars@ =~= s0.avatars@);
    let m = s0.master_key@;
    let mid1 = s0.entities@.insert(key, s1.entities@[key]);
    let mid2 = s1.entities@.remove(key);
    if is_master {
        assert(mid2 =~= s0.entities@);
        assert(s2.entities@ == mid2);
    } else {
        law_only_master_hears(mid1, s1.entities@, m, s1.avatars@[key].json(), d1);
        law_only_master_hears(mid2, s2.entities@, m, remove_avatar_json(decode_utf8(key)), d2);
        assert(mid2.dom() =~= s0.entities@.dom());
        assert forall|k: Seq<u8>|
            #[trigger] s0.entities@.dom().contains(k) && k != m implies s2.entities@[k]
            == s0.entities@[k] by {
            assert(k != key);
        }
    }
    assert(s2.entities@.dom() =~= s0.entities@.dom());
}

/// The master entity joins and leaves in silence: registering it and then
/// dropping it hands nothing to any channel, and leaves every other channel
/// and the avatars as they were.
pub proof fn law_master_joins_and_leaves_silently(
    s0: Session,
    s1: Session,
    s2: Session,
    tx: Tx,
    is_master: bool,
    d1: Delivery,
    d2: Delivery,
)
    requires
        add_entity_post(s0, s1, s0.master_key@, tx, is_master, d1),
        remove_entity_post(s1, s2, s0.master_key@, d2),
    ensures
        is_master,
        d1 == Delivery::Unsent,
        d2 == Delivery::Unsent,
        s2.entities@ == s0.entities@.remove(s0.master_key@),
        s2.avatars@ == s0.avatars@.remove(s0.master_key@),
{
    let m = s0.master_key@;
    assert(!s1.entities@.remove(m).dom().contains(m));
    assert(s2.entities@ =~= s0.entities@.remove(m));
}

/// An entity that disconnects while the master is connected has its removal
/// announced to the master under its whole key: the master's channel is
/// handed `{"_op": "remove_avatar", "key": <the entity's key>}`.
pub proof fn law_disconnect_announces_whole_key(
    pre: Session,
    post: Session,
    key: Seq<u8>,
    delivery: Delivery,
)
    requires
        remove_entity_post(pre, post, key, delivery),
        key != pre.master_key@,
        pre.master_connected(),
    ensures
        post.entities@[pre.master_key@].sent() == pre.entities@[pre.master_key@].sent().push(
            (
                json_object(seq![("_op"@, "remove_avatar"@), ("key"@, decode_utf8(key))], seq![]),
                delivery == Delivery::Accepted,
            ),
        ),
{
}

/// A message forwarded for an entity names that entity by its whole key
/// and carries the message unchanged: announcing the update of `key` with
/// `value` hands the master's channel `{"_op": "update_avatar", "key": key,
/// "value": value}`.
pub proof fn law_update_names_whole_key(
    pre: Map<Seq<u8>, Outbox>,
    post: Map<Seq<u8>, Outbox>,
    master: Seq<u8>,
    key: Seq<char>,
    value: Seq<char>,
    delivery: Delivery,
)
    requires
        announced(pre, post, master, update_avatar_json(key, value), delivery),
        pre.dom().contains(master),
    ensures
        post[master].sent() == pre[master].sent().push(
            (
                json_object(
                    seq![("_op"@, "update_avatar"@), ("key"@, key), ("value"@, value)],
                    seq![],
                ),
                delivery == Delivery::Accepted,
            ),
        ),
{
}

/// An entity other than the master that connects gets an avatar under its
/// whole key, and a connected master is handed that avatar's own key and
/// numbers in an `add_avatar` operation.
pub proof fn law_connect_announces_own_avatar(
    pre: Session,
    post: Session,
    key: Seq<u8>,
    tx: Tx,
    delivery: Delivery,
)
    requires
        add_entity_post(pre, post, key, tx, false, delivery),
    ensures
        post.avatars@.dom().contains(key),
        post.avatars@[key].key@ == decode_utf8(key),
        pre.master_connected() ==> ({
            let m = pre.master_key@;
            let a = post.avatars@[key];
            post.entities@[m].sent() == pre.entities@[m].sent().push(
                (json_object(
                seq![("_op"@, "add_avatar"@), ("key"@, a.key@)],
                seq![
                    ("speed"@, a.speed as int),
                    ("r"@, a.r as int),
                    ("g"@, a.g as int),
                    ("b"@, a.b as int),
                    ("x"@, a.x as int),
                    ("y"@, a.y as int),
                    ("x_velocity"@, a.x_velocity as int),
                    ("y_velocity"@, a.y_velocity as int),
                ],
            ), delivery == Delivery::Accepted),
            )
        }),
{
    let m = pre.master_key@;
    if pre.master_connected() {
        assert(pre.entities@.insert(key, post.entities@[key])[m] == pre.entities@[m]);
    }
}

} // verus!
