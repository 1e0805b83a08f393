//! Which commands apply to which kinds of file.
//!
//! A surface says where a menu opens and what it can ever contain. What is
//! right-clicked narrows it further: Extract means nothing on a photo, Show
//! Contents nothing on a text file. That second rule is this table. Each
//! command names the target types it handles; a command the table does not
//! name handles every type.

use vstd::prelude::*;

use crate::menu_plan::ids;
use crate::strings::{chars_eq_str, chars_of};

verus! {

/// What a menu target is.
#[derive(Clone, Copy, Debug, Eq, PartialEq, Structural)]
pub enum TargetType {
    Folder,
    /// A directory shown as one item: an application, an installer, a
    /// document package.
    Package,
    /// A file that can be browsed and extracted as an archive, by its name.
    Archive,
    /// A checksum list (`SHA256SUMS`, `*.sha256`, …).
    ChecksumManifest,
    Image,
    Video,
    Audio,
    Document,
    Code,
    DiskImage,
    Executable,
    Other,
}

/// The position of a type's bit in a [`TypeSet`].
pub open spec fn type_index(t: TargetType) -> u16 {
    match t {
        TargetType::Folder => 0,
        TargetType::Package => 1,
        TargetType::Archive => 2,
        TargetType::ChecksumManifest => 3,
        TargetType::Image => 4,
        TargetType::Video => 5,
        TargetType::Audio => 6,
        TargetType::Document => 7,
        TargetType::Code => 8,
        TargetType::DiskImage => 9,
        TargetType::Executable => 10,
        TargetType::Other => 11,
    }
}

/// The type whose bit is at position `i`.
pub open spec fn type_at(i: u16) -> TargetType {
    if i == 0 {
        TargetType::Folder
    } else if i == 1 {
        TargetType::Package
    } else if i == 2 {
        TargetType::Archive
    } else if i == 3 {
        TargetType::ChecksumManifest
    } else if i == 4 {
        TargetType::Image
    } else if i == 5 {
        TargetType::Video
    } else if i == 6 {
        TargetType::Audio
    } else if i == 7 {
        TargetType::Document
    } else if i == 8 {
        TargetType::Code
    } else if i == 9 {
        TargetType::DiskImage
    } else if i == 10 {
        TargetType::Executable
    } else {
        TargetType::Other
    }
}

/// Every type has a bit of its own.
pub proof fn lemma_type_index(t: TargetType)
    ensures
        type_index(t) < 16,
        type_at(type_index(t)) == t,
{
}

/// The bit of a type.
pub open spec fn type_bit(t: TargetType) -> u16 {
    1u16 << type_index(t)
}

/// Whether the bit set `bits` holds type `t`.
pub open spec fn has_type(bits: u16, t: TargetType) -> bool {
    bits & type_bit(t) != 0
}

/// The bits of every type in `types`.
pub open spec fn mask_of(types: Seq<TargetType>) -> u16
    decreases types.len(),
{
    if types.len() == 0 {
        0
    } else {
        mask_of(types.drop_last()) | type_bit(types.last())
    }
}

proof fn lemma_bit_or(b: u16, i: u16, j: u16)
    requires
        i < 16,
        j < 16,
    ensures
        ((b | (1u16 << i)) & (1u16 << j) != 0) == ((b & (1u16 << j) != 0) || i == j),
{
    assert(((b | (1u16 << i)) & (1u16 << j) != 0) == ((b & (1u16 << j) != 0) || i == j)) by (bit_vector)
        requires
            i < 16,
            j < 16,
    ;
}

proof fn lemma_bit_and_not(a: u16, m: u16, j: u16)
    requires
        j < 16,
    ensures
        ((a & !m) & (1u16 << j) != 0) == ((a & (1u16 << j) != 0) && (m & (1u16 << j) == 0)),
{
    assert(((a & !m) & (1u16 << j) != 0) == ((a & (1u16 << j) != 0) && (m & (1u16 << j) == 0))) by (bit_vector)
        requires
            j < 16,
    ;
}

/// A set of types holds exactly the types of the list it was made from.
pub proof fn lemma_mask_of(types: Seq<TargetType>, t: TargetType)
    ensures
        has_type(mask_of(types), t) == types.contains(t),
    decreases types.len(),
{
    if types.len() > 0 {
        lemma_mask_of(types.drop_last(), t);
        lemma_type_index(t);
        lemma_type_index(types.last());
        lemma_bit_or(mask_of(types.drop_last()), type_index(types.last()), type_index(t));
        if types.contains(t) && !types.drop_last().contains(t) {
            let k = choose|k: int| 0 <= k < types.len() && types[k] == t;
            if k < types.len() - 1 {
                assert(types.drop_last()[k] == t);
            }
        }
        if types.drop_last().contains(t) {
            let k = choose|k: int| 0 <= k < types.len() - 1 && types.drop_last()[k] == t;
            assert(types[k] == t);
        }
        if types.last() == t {
            assert(types[types.len() - 1] == t);
        }
    } else {
        let b = type_bit(t);
        assert(0u16 & b == 0) by (bit_vector);
    }
}

impl TargetType {
    /// The bit of this type in a [`TypeSet`].
    pub fn bit(self) -> (r: u16)
        ensures
            r == type_bit(self),
    {
        match self {
            TargetType::Folder => 1u16 << 0u16,
            TargetType::Package => 1u16 << 1u16,
            TargetType::Archive => 1u16 << 2u16,
            TargetType::ChecksumManifest => 1u16 << 3u16,
            TargetType::Image => 1u16 << 4u16,
            TargetType::Video => 1u16 << 5u16,
            TargetType::Audio => 1u16 << 6u16,
            TargetType::Document => 1u16 << 7u16,
            TargetType::Code => 1u16 << 8u16,
            TargetType::DiskImage => 1u16 << 9u16,
            TargetType::Executable => 1u16 << 10u16,
            TargetType::Other => 1u16 << 11u16,
        }
    }
}

/// A set of [`TargetType`]s.
#[derive(Clone, Copy, Debug, Eq, PartialEq, Structural)]
pub struct TypeSet(pub u16);

impl TypeSet {
    /// No type.
    pub fn empty() -> (r: TypeSet)
        ensures
            r.0 == 0,
            forall|t: TargetType| !has_type(r.0, t),
    {
        assert forall|t: TargetType| !has_type(0u16, t) by {
            let i = type_index(t);
            assert(0u16 & (1u16 << i) == 0) by (bit_vector);
        }
        TypeSet(0)
    }

    /// Every type.
    pub fn all() -> (r: TypeSet)
        ensures
            r.0 == 0xffff,
            forall|t: TargetType| has_type(r.0, t),
    {
        assert forall|t: TargetType| has_type(0xffffu16, t) by {
            let i = type_index(t);
            assert(i < 16 ==> 0xffffu16 & (1u16 << i) != 0) by (bit_vector);
        }
        TypeSet(0xffff)
    }

    /// The set of the listed types.
    pub fn of(types: &[TargetType]) -> (r: TypeSet)
        ensures
            r.0 == mask_of(types@),
            forall|t: TargetType| has_type(r.0, t) == types@.contains(t),
    {
        let mut bits: u16 = 0;
        let mut i: usize = 0;
        while i < types.len()
            invariant
                i <= types.len(),
                bits == mask_of(types@.take(i as int)),
            decreases types.len() - i,
        {
            assert(types@.take(i + 1).drop_last() =~= types@.take(i as int));
            bits = bits | types[i].bit();
            i = i + 1;
        }
        assert(types@.take(types.len() as int) =~= types@);
        assert forall|t: TargetType| has_type(bits, t) == types@.contains(t) by {
            lemma_mask_of(types@, t);
        }
        TypeSet(bits)
    }

    /// This set without the listed types.
    pub fn without(self, types: &[TargetType]) -> (r: TypeSet)
        ensures
            r.0 == self.0 & !mask_of(types@),
            forall|t: TargetType| has_type(r.0, t) == (has_type(self.0, t) && !types@.contains(t)),
    {
        let m = TypeSet::of(types);
        let r = TypeSet(self.0 & !m.0);
        assert forall|t: TargetType| has_type(r.0, t) == (has_type(self.0, t) && !types@.contains(t)) by {
            lemma_type_index(t);
            lemma_mask_of(types@, t);
            lemma_bit_and_not(self.0, m.0, type_index(t));
        }
        r
    }

    /// Add one type.
    pub fn insert(&mut self, t: TargetType)
        ensures
            final(self).0 == old(self).0 | type_bit(t),
            forall|u: TargetType| has_type(final(self).0, u) == (has_type(old(self).0, u) || u == t),
    {
        let old_bits = self.0;
        self.0 = self.0 | t.bit();
        assert forall|u: TargetType| #[trigger] has_type(self.0, u) == (has_type(old_bits, u) || u == t) by {
            lemma_type_index(t);
            lemma_type_index(u);
            lemma_bit_or(old_bits, type_index(t), type_index(u));
        }
    }

    /// Whether the set holds `t`.
    pub fn contains(self, t: TargetType) -> (r: bool)
        ensures
            r == has_type(self.0, t),
    {
        self.0 & t.bit() != 0
    }

    /// Whether the two sets share a type.
    pub fn intersects(self, other: TypeSet) -> (r: bool)
        ensures
            r == (self.0 & other.0 != 0),
    {
        self.0 & other.0 != 0
    }
}

/// Which of the targets a rule looks at.
#[derive(Clone, Copy, Debug, Eq, PartialEq, Structural)]
pub enum Scope {
    /// The row that was right-clicked: for commands that act on one item.
    Anchor,
    /// Any targeted row: for commands that act on the matching subset.
    Any,
}

/// One line of the table: a command, which targets it looks at, and the
/// types it handles.
pub struct Rule {
    pub id: &'static str,
    pub scope: Scope,
    pub handles: TypeSet,
}

/// Anything that is not a folder or a package.
pub open spec fn files_mask() -> u16 {
    0xffffu16 & !mask_of(seq![TargetType::Folder, TargetType::Package])
}

/// Files a text editor can make sense of.
pub open spec fn text_like_mask() -> u16 {
    files_mask() & !mask_of(
        seq![
            TargetType::Image,
            TargetType::Video,
            TargetType::Audio,
            TargetType::Archive,
            TargetType::DiskImage,
            TargetType::Executable,
        ],
    )
}

/// What a command acting on one directory can take.
pub open spec fn directories_mask() -> u16 {
    mask_of(seq![TargetType::Folder, TargetType::Package])
}

/// The table, as `(id, scope, handled types)`. A command absent from it
/// handles every type.
pub open spec fn rules_spec() -> Seq<(Seq<char>, Scope, u16)> {
    seq![
        (ids::SHOW_CONTENTS@, Scope::Anchor, mask_of(seq![TargetType::Package, TargetType::Archive])),
        (ids::EDIT@, Scope::Anchor, text_like_mask()),
        (ids::EDIT_IN_SYSTEM_EDITOR@, Scope::Anchor, text_like_mask()),
        (ids::EDIT_IMAGE@, Scope::Anchor, mask_of(seq![TargetType::Image])),
        (ids::SLIDESHOW_FROM_HERE@, Scope::Anchor, files_mask()),
        (ids::GENERATE_SHA256@, Scope::Anchor, files_mask()),
        (ids::VERIFY_CHECKSUMS@, Scope::Anchor, mask_of(seq![TargetType::ChecksumManifest])),
        (ids::OPEN_TERMINAL_HERE@, Scope::Anchor, directories_mask()),
        (ids::TOGGLE_FAVORITE@, Scope::Anchor, directories_mask()),
        (ids::EXTRACT@, Scope::Any, mask_of(seq![TargetType::Archive])),
        (ids::CONVERT_ARCHIVE@, Scope::Anchor, mask_of(seq![TargetType::Archive])),
        (ids::OPEN_AS_ARCHIVE@, Scope::Anchor, files_mask() & !mask_of(seq![TargetType::Archive])),
    ]
}

/// The views of a list of rules.
pub open spec fn rules_view(v: Seq<Rule>) -> Seq<(Seq<char>, Scope, u16)> {
    v.map_values(|r: Rule| (r.id@, r.scope, r.handles.0))
}

/// The table of rules.
pub fn rules() -> (r: Vec<Rule>)
    ensures
        rules_view(r@) == rules_spec(),
{
    let dirs = [TargetType::Folder, TargetType::Package];
    let binary = [
        TargetType::Image,
        TargetType::Video,
        TargetType::Audio,
        TargetType::Archive,
        TargetType::DiskImage,
        TargetType::Executable,
    ];
    let openable = [TargetType::Package, TargetType::Archive];
    let image = [TargetType::Image];
    let manifest = [TargetType::ChecksumManifest];
    let archive = [TargetType::Archive];
    assert(dirs@ =~= seq![TargetType::Folder, TargetType::Package]);
    assert(binary@ =~= seq![
        TargetType::Image,
        TargetType::Video,
        TargetType::Audio,
        TargetType::Archive,
        TargetType::DiskImage,
        TargetType::Executable,
    ]);
    assert(openable@ =~= seq![TargetType::Package, TargetType::Archive]);
    assert(image@ =~= seq![TargetType::Image]);
    assert(manifest@ =~= seq![TargetType::ChecksumManifest]);
    assert(archive@ =~= seq![TargetType::Archive]);
    let files = TypeSet::all().without(&dirs);
    let text_like = files.without(&binary);
    let directories = TypeSet::of(&dirs);
    let r = vec![
        Rule { id: ids::SHOW_CONTENTS, scope: Scope::Anchor, handles: TypeSet::of(&openable) },
        Rule { id: ids::EDIT, scope: Scope::Anchor, handles: text_like },
        Rule { id: ids::EDIT_IN_SYSTEM_EDITOR, scope: Scope::Anchor, handles: text_like },
        Rule { id: ids::EDIT_IMAGE, scope: Scope::Anchor, handles: TypeSet::of(&image) },
        Rule { id: ids::SLIDESHOW_FROM_HERE, scope: Scope::Anchor, handles: files },
        Rule { id: ids::GENERATE_SHA256, scope: Scope::Anchor, handles: files },
        Rule { id: ids::VERIFY_CHECKSUMS, scope: Scope::Anchor, handles: TypeSet::of(&manifest) },
        Rule { id: ids::OPEN_TERMINAL_HERE, scope: Scope::Anchor, handles: directories },
        Rule { id: ids::TOGGLE_FAVORITE, scope: Scope::Anchor, handles: directories },
        Rule { id: ids::EXTRACT, scope: Scope::Any, handles: TypeSet::of(&archive) },
        Rule { id: ids::CONVERT_ARCHIVE, scope: Scope::Anchor, handles: TypeSet::of(&archive) },
        Rule { id: ids::OPEN_AS_ARCHIVE, scope: Scope::Anchor, handles: files.without(&archive) },
    ];
    assert(rules_view(r@) =~= rules_spec());
    r
}

/// The types a menu acts on: the right-clicked row's, and the union over
/// every targeted row.
#[derive(Clone, Copy, Debug)]
pub struct TargetTypes {
    pub anchor: Option<TargetType>,
    /// Every type among the targets; conservatively every type when the
    /// selection is too large to classify while the menu opens.
    pub any: TypeSet,
}

/// Index of the first rule for `id`, or -1.
pub open spec fn rule_index(rs: Seq<(Seq<char>, Scope, u16)>, id: Seq<char>) -> int
    decreases rs.len(),
{
    if rs.len() == 0 {
        -1
    } else {
        let p = rule_index(rs.drop_last(), id);
        if p >= 0 {
            p
        } else if rs.last().0 == id {
            rs.len() - 1
        } else {
            -1
        }
    }
}

/// Whether command `id` handles `targets`, by the table.
pub open spec fn handles_spec(id: Seq<char>, targets: TargetTypes) -> bool {
    let k = rule_index(rules_spec(), id);
    if k < 0 {
        true
    } else {
        let r = rules_spec()[k];
        match r.1 {
            Scope::Anchor => targets.anchor matches Some(t) && has_type(r.2, t),
            Scope::Any => targets.any.0 & r.2 != 0,
        }
    }
}

proof fn lemma_rule_index(rs: Seq<(Seq<char>, Scope, u16)>, id: Seq<char>)
    ensures
        -1 <= rule_index(rs, id) < rs.len(),
        rule_index(rs, id) >= 0 ==> rs[rule_index(rs, id)].0 == id,
        rule_index(rs, id) >= 0 ==> forall|k: int| 0 <= k < rule_index(rs, id) ==> rs[k].0 != id,
        rule_index(rs, id) < 0 ==> forall|k: int| 0 <= k < rs.len() ==> rs[k].0 != id,
    decreases rs.len(),
{
    if rs.len() > 0 {
        lemma_rule_index(rs.drop_last(), id);
        let p = rule_index(rs.drop_last(), id);
        if p >= 0 {
            assert(rs.drop_last()[p] == rs[p]);
            assert forall|k: int| 0 <= k < rule_index(rs, id) implies rs[k].0 != id by {
                assert(rs[k] == rs.drop_last()[k]);
            }
        } else {
            assert forall|k: int| 0 <= k < rs.len() - 1 implies rs[k].0 != id by {
                assert(rs[k] == rs.drop_last()[k]);
            }
        }
    }
}

/// Whether command `id` handles `targets`.
pub fn handles(id: &str, targets: &TargetTypes) -> (r: bool)
    ensures
        r == handles_spec(id@, *targets),
{
    let table = rules();
    let want = chars_of(id);
    let ghost rs = rules_spec();
    proof {
        lemma_rule_index(rs, id@);
    }
    let mut i: usize = 0;
    while i < table.len()
        invariant
            i <= table.len(),
            rules_view(table@) == rs,
            rs == rules_spec(),
            want@ == id@,
            forall|k: int| 0 <= k < i ==> rs[k].0 != id@,
        decreases table.len() - i,
    {
        assert(rs[i as int] == (table@[i as int].id@, table@[i as int].scope, table@[i as int].handles.0));
        if chars_eq_str(&want, table[i].id) {
            proof {
                lemma_rule_index(rs, id@);
                if rule_index(rs, id@) != i {
                    assert(rs[i as int].0 == id@);
                }
            }
            let rule = &table[i];
            return match rule.scope {
                Scope::Anchor => match targets.anchor {
                    Some(t) => rule.handles.contains(t),
                    None => false,
                },
                Scope::Any => targets.any.intersects(rule.handles),
            };
        }
        i = i + 1;
    }
    proof {
        lemma_rule_index(rs, id@);
        if rule_index(rs, id@) >= 0 {
            assert(rs[rule_index(rs, id@)].0 == id@);
        }
    }
    true
}

/// The signals a row's type is decided from, as the list already carries
/// them: whether a directory shows as one item, whether the row is a
/// checksum list, whether its name is that of an archive that can be opened,
/// and the tint its icon was given.
#[derive(Clone, Copy, Debug, Eq, PartialEq, Structural)]
pub enum Tint {
    Folder,
    Image,
    Video,
    Audio,
    Document,
    Code,
    Archive,
    Disk,
    Executable,
    Symlink,
    Unknown,
}

/// The type of one row: a directory is a package or a folder; a file is a
/// checksum list, an archive by its name, or whatever its icon tint says (an
/// archive format that cannot be opened is, for these commands, just a file).
pub fn target_type(is_directory: bool, is_package: bool, is_manifest: bool, is_archive_path: bool, tint: Tint) -> (r: TargetType)
    ensures
        is_directory ==> r == if is_package { TargetType::Package } else { TargetType::Folder },
        !is_directory && is_manifest ==> r == TargetType::ChecksumManifest,
        !is_directory && !is_manifest && is_archive_path ==> r == TargetType::Archive,
        !is_directory && !is_manifest && !is_archive_path ==> r == match tint {
            Tint::Image => TargetType::Image,
            Tint::Video => TargetType::Video,
            Tint::Audio => TargetType::Audio,
            Tint::Document => TargetType::Document,
            Tint::Code => TargetType::Code,
            Tint::Disk => TargetType::DiskImage,
            Tint::Executable => TargetType::Executable,
            _ => TargetType::Other,
        },
{
    if is_directory {
        return if is_package {
            TargetType::Package
        } else {
            TargetType::Folder
        };
    }
    if is_manifest {
        return TargetType::ChecksumManifest;
    }
    if is_archive_path {
        return TargetType::Archive;
    }
    match tint {
        Tint::Image => TargetType::Image,
        Tint::Video => TargetType::Video,
        Tint::Audio => TargetType::Audio,
        Tint::Document => TargetType::Document,
        Tint::Code => TargetType::Code,
        Tint::Disk => TargetType::DiskImage,
        Tint::Executable => TargetType::Executable,
        Tint::Archive | Tint::Folder | Tint::Symlink | Tint::Unknown => TargetType::Other,
    }
}

} // verus!
