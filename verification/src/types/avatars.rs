//! The avatars drawn for connected entities.
use crate::json::json_object;
use crate::json::json_object_string;
use crate::json::number_fields;
use crate::json::text_fields;
use crate::keyed::KeyedList;
use crate::random::random_in_range;
use vstd::prelude::*;

verus! {

/// What the session knows of an entity's avatar: its key, its speed, its
/// colour, its position and its velocity.
pub struct Avatar {
    pub key: String,
    pub speed: i32,
    pub r: i32,
    pub g: i32,
    pub b: i32,
    pub x: i32,
    pub y: i32,
    pub x_velocity: i32,
    pub y_velocity: i32,
}

/// Avatars by entity key.
pub type Avatars = KeyedList<Avatar>;

impl Avatar {
    /// The `add_avatar` operation for this avatar, as JSON.
    pub open spec fn json(self) -> Seq<char> {
        json_object(
            seq![("_op"@, "add_avatar"@), ("key"@, self.key@)],
            seq![
                ("speed"@, self.speed as int),
                ("r"@, self.r as int),
                ("g"@, self.g as int),
                ("b"@, self.b as int),
                ("x"@, self.x as int),
                ("y"@, self.y as int),
                ("x_velocity"@, self.x_velocity as int),
                ("y_velocity"@, self.y_velocity as int),
            ],
        )
    }

    /// A freshly drawn avatar for the entity whose key reads `key`: speed 10,
    /// each colour channel in `[0, 255)`, each coordinate in `[0, 100)`, at
    /// rest.
    pub open spec fn is_new_for(self, key: Seq<char>) -> bool {
        &&& self.key@ == key
        &&& self.speed == 10
        &&& 0 <= self.r < 255
        &&& 0 <= self.g < 255
        &&& 0 <= self.b < 255
        &&& 0 <= self.x < 100
        &&& 0 <= self.y < 100
        &&& self.x_velocity == 0
        &&& self.y_velocity == 0
    }

    /// Draws a new avatar with a random colour and position.
    pub fn random(key: String) -> (avatar: Avatar)
        ensures
            avatar.is_new_for(key@),
            avatar.key@ == key@,
            avatar.speed == 10,
            0 <= avatar.r < 255,
            0 <= avatar.g < 255,
            0 <= avatar.b < 255,
            0 <= avatar.x < 100,
            0 <= avatar.y < 100,
            avatar.x_velocity == 0,
            avatar.y_velocity == 0,
    {
        let r = random_in_range(0, 255);
        let g = random_in_range(0, 255);
        let b = random_in_range(0, 255);
        let x = random_in_range(0, 100);
        let y = random_in_range(0, 100);
        Avatar { key, speed: 10, r, g, b, x, y, x_velocity: 0, y_velocity: 0 }
    }

    /// The `add_avatar` operation for this avatar, serialised.
    pub fn to_json(&self) -> (json: String)
        ensures
            json@ == self.json(),
            json@ == json_object(
                seq![("_op"@, "add_avatar"@), ("key"@, self.key@)],
                seq![
                    ("speed"@, self.speed as int),
                    ("r"@, self.r as int),
                    ("g"@, self.g as int),
                    ("b"@, self.b as int),
                    ("x"@, self.x as int),
                    ("y"@, self.y as int),
                    ("x_velocity"@, self.x_velocity as int),
                    ("y_velocity"@, self.y_velocity as int),
                ],
            ),
    {
        let texts = vec![
            ("_op".to_owned(), "add_avatar".to_owned()),
            ("key".to_owned(), self.key.clone()),
        ];
        let numbers = vec![
            ("speed".to_owned(), self.speed as i64),
            ("r".to_owned(), self.r as i64),
            ("g".to_owned(), self.g as i64),
            ("b".to_owned(), self.b as i64),
            ("x".to_owned(), self.x as i64),
            ("y".to_owned(), self.y as i64),
            ("x_velocity".to_owned(), self.x_velocity as i64),
            ("y_velocity".to_owned(), self.y_velocity as i64),
        ];
        proof {
            assert(text_fields(texts@) =~= seq![("_op"@, "add_avatar"@), ("key"@, self.key@)]);
            assert(number_fields(numbers@) =~= seq![
                ("speed"@, self.speed as int),
                ("r"@, self.r as int),
                ("g"@, self.g as int),
                ("b"@, self.b as int),
                ("x"@, self.x as int),
                ("y"@, self.y as int),
                ("x_velocity"@, self.x_velocity as int),
                ("y_velocity"@, self.y_velocity as int),
            ]);
        }
        json_object_string(&texts, &numbers)
    }
}

/// The `add_avatar` operation of an avatar carries the avatar's own key and
/// each of its own numbers, unchanged, under its field name.
pub proof fn law_avatar_json_carries_own_fields(avatar: Avatar)
    ensures
        avatar.json() == json_object(
            seq![("_op"@, "add_avatar"@), ("key"@, avatar.key@)],
            seq![
                ("speed"@, avatar.speed as int),
                ("r"@, avatar.r as int),
                ("g"@, avatar.g as int),
                ("b"@, avatar.b as int),
                ("x"@, avatar.x as int),
                ("y"@, avatar.y as int),
                ("x_velocity"@, avatar.x_velocity as int),
                ("y_velocity"@, avatar.y_velocity as int),
            ],
        ),
{
}

/// A freshly drawn avatar belongs to the entity it was drawn for: its key
/// is that entity's whole key; it moves at speed 10, its colour channels lie
/// in `[0, 255)`, its coordinates in `[0, 100)`, and it is at rest.
pub proof fn law_new_avatar_belongs_to_its_key(avatar: Avatar, key: Seq<char>)
    requires
        avatar.is_new_for(key),
    ensures
        avatar.key@ == key,
        avatar.key@.len() == key.len(),
        avatar.speed == 10,
        0 <= avatar.r < 255,
        0 <= avatar.g < 255,
        0 <= avatar.b < 255,
        0 <= avatar.x < 100,
        0 <= avatar.y < 100,
        avatar.x_velocity == 0,
        avatar.y_velocity == 0,
{
}

} // verus!
