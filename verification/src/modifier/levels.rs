//! What a unit's level writes onto it: the build's table of ratings, one row
//! a level. The level selects a row rather than generating a multiplier.

use std::collections::BTreeMap;

use vstd::prelude::*;

use crate::Error;
use crate::data::{Channel, Correction, Entry, Index};
use crate::text::{decimal, decimal_spec, join3};

verus! {

broadcast use {vstd::std_specs::btree::group_btree_axioms, vstd::laws_cmp::group_laws_cmp};

/// The module that tags every entry a level writes.
pub const LEVEL_SOURCE: &'static str = "Modifier.Level";

/// The rating that leaves a number as it is: one, in Q32.32.
pub const IDENTITY_RATING: i64 = 0x1_0000_0000i64;

/// One row of the level table: the Q32.32 ratings a level multiplies life
/// and damage by.
#[derive(Debug, Clone, Copy, PartialEq, Eq, Structural)]
pub struct LevelRow {
    pub level: i32,
    pub life_rating: i64,
    pub damage_rating: i64,
}

/// The level table as it was read.
#[derive(Debug, Clone)]
pub struct LevelTable {
    pub schema: String,
    pub game_build: String,
    pub levels: Vec<LevelRow>,
}

/// Every level's ratings, by level.
#[derive(Debug)]
pub struct LevelEffects {
    pub levels: BTreeMap<i32, LevelRow>,
}

/// Why a table's rows are refused, looking at the first `count` in order:
/// each row's ratings, then whether it repeats an earlier row's level.
pub open spec fn level_rows_check(rows: Seq<LevelRow>, count: int) -> Option<Seq<char>>
    decreases count,
{
    if count <= 0 {
        None
    } else if level_rows_check(rows, count - 1) is Some {
        level_rows_check(rows, count - 1)
    } else if rows[count - 1].life_rating <= 0 || rows[count - 1].damage_rating <= 0 {
        Some("unit level ratings must be positive"@)
    } else if exists|j: int| 0 <= j < count - 1 && #[trigger] rows[j].level == rows[count - 1].level {
        Some("unit level table repeats a level"@)
    } else {
        None
    }
}

/// Whether some row is of `level`.
pub open spec fn holds_level(rows: Seq<LevelRow>, level: int) -> bool {
    exists|k: int| 0 <= k < rows.len() && rows[k].level == level
}

/// Whether the rows cover exactly the levels one through nine.
pub open spec fn covers_one_to_nine(rows: Seq<LevelRow>) -> bool {
    &&& forall|k: int| 0 <= k < rows.len() ==> 1 <= #[trigger] rows[k].level <= 9
    &&& forall|level: int| 1 <= level <= 9 ==> #[trigger] holds_level(rows, level)
}

/// Once a prefix of the rows is refused, every longer prefix is refused for
/// the same reason.
pub proof fn lemma_level_rows_settle(rows: Seq<LevelRow>, count: int, longer: int)
    requires
        level_rows_check(rows, count) is Some,
        count <= longer,
    ensures
        level_rows_check(rows, longer) == level_rows_check(rows, count),
    decreases longer - count,
{
    if count < longer {
        lemma_level_rows_settle(rows, count, longer - 1);
    }
}

/// What a level's row writes: an entry for each rating that is not the
/// identity, life first, on the description's own base.
pub open spec fn level_written(row: LevelRow) -> Seq<(Channel, Entry)> {
    let life = if row.life_rating != IDENTITY_RATING {
        seq![(Channel::Base, Entry { index: Index::MaxLife, source: LEVEL_SOURCE, correction: Correction::Rating(row.life_rating) })]
    } else {
        Seq::empty()
    };
    let damage = if row.damage_rating != IDENTITY_RATING {
        seq![(Channel::Base, Entry { index: Index::AttackDamage, source: LEVEL_SOURCE, correction: Correction::Rating(row.damage_rating) })]
    } else {
        Seq::empty()
    };
    life + damage
}

impl LevelEffects {
    /// The ratings of a table as it was read, once it is known to be this
    /// build's table, with positive ratings, each level once, and exactly the
    /// levels one through nine.
    pub fn load(table: LevelTable) -> (result: Result<Self, Error>)
        ensures
            (table.schema@ != "mechcore.unit_levels"@ || table.game_build@ != "1.11.1.3.2259"@) ==> (result matches Err(
                error,
            ) && error.message@ == "unit level table has an unsupported schema or build"@),
            (table.schema@ == "mechcore.unit_levels"@ && table.game_build@ == "1.11.1.3.2259"@) ==> match level_rows_check(
                table.levels@,
                table.levels.len() as int,
            ) {
                Some(message) => (result matches Err(error) && error.message@ == message),
                None => if covers_one_to_nine(table.levels@) {
                    result matches Ok(effects) && (forall|level: i32| effects.levels@.contains_key(level) <==> 1 <= level <= 9)
                        && forall|k: int| 0 <= k < table.levels.len() ==> effects.levels@[table.levels[k].level]
                        == table.levels[k]
                } else {
                    result matches Err(error) && error.message@ == "unit level table must contain levels 1 through 9"@
                },
            },
    {
        if !(table.schema == String::from_str("mechcore.unit_levels"))
            || !(table.game_build == String::from_str("1.11.1.3.2259")) {
            return Err(Error::new(String::from_str("unit level table has an unsupported schema or build")));
        }
        let rows = &table.levels;
        let mut levels: BTreeMap<i32, LevelRow> = BTreeMap::new();
        let mut i: usize = 0;
        while i < rows.len()
            invariant
                i <= rows.len(),
                rows@ == table.levels@,
                table.schema@ == "mechcore.unit_levels"@ && table.game_build@ == "1.11.1.3.2259"@,
                level_rows_check(rows@, i as int) is None,
                forall|level: i32| levels@.contains_key(level) <==> exists|k: int| 0 <= k < i && rows[k].level == level,
                forall|k: int| 0 <= k < i ==> levels@[#[trigger] rows[k].level] == rows[k],
            decreases rows.len() - i,
        {
            let row = rows[i];
            if row.life_rating <= 0 || row.damage_rating <= 0 {
                proof {
                    lemma_level_rows_settle(rows@, i + 1, rows.len() as int);
                }
                return Err(Error::new(String::from_str("unit level ratings must be positive")));
            }
            let previous = levels.insert(row.level, row);
            if previous.is_some() {
                proof {
                    let j = choose|j: int| 0 <= j < i && rows[j].level == row.level;
                    assert(rows@[j].level == rows@[i as int].level);
                    lemma_level_rows_settle(rows@, i + 1, rows.len() as int);
                }
                return Err(Error::new(String::from_str("unit level table repeats a level")));
            }
            proof {
                assert(!(exists|j: int| 0 <= j < i && #[trigger] rows@[j].level == rows@[i as int].level)) by {
                    if exists|j: int| 0 <= j < i && #[trigger] rows@[j].level == rows@[i as int].level {
                        let j = choose|j: int| 0 <= j < i && #[trigger] rows@[j].level == rows@[i as int].level;
                        assert(levels@.contains_key(rows[j].level));
                    }
                }
                assert forall|k: int| 0 <= k < i + 1 implies levels@[#[trigger] rows[k].level] == rows[k] by {
                    if k < i {
                        assert(rows[k].level != row.level);
                    }
                }
            }
            i = i + 1;
        }
        let mut within = true;
        let mut k: usize = 0;
        while k < rows.len()
            invariant
                k <= rows.len(),
                within <==> forall|a: int| 0 <= a < k ==> 1 <= #[trigger] rows[a].level <= 9,
            decreases rows.len() - k,
        {
            if rows[k].level < 1 || rows[k].level > 9 {
                within = false;
            }
            k = k + 1;
        }
        let mut covered = true;
        let mut level: i32 = 1;
        while level <= 9
            invariant
                1 <= level <= 10,
                covered <==> forall|a: i32| 1 <= a < level ==> #[trigger] levels@.contains_key(a),
            decreases 10 - level,
        {
            if !levels.contains_key(&level) {
                covered = false;
            }
            level = level + 1;
        }
        proof {
            assert(covered <==> forall|l: int| 1 <= l <= 9 ==> #[trigger] holds_level(rows@, l)) by {
                if covered {
                    assert forall|l: int| 1 <= l <= 9 implies #[trigger] holds_level(rows@, l) by {
                        assert(levels@.contains_key(l as i32));
                    }
                } else {
                    let a = choose|a: i32| 1 <= a < 10 && !#[trigger] levels@.contains_key(a);
                    assert(!holds_level(rows@, a as int));
                }
            }
        }
        if !within || !covered {
            return Err(Error::new(String::from_str("unit level table must contain levels 1 through 9")));
        }
        proof {
            assert forall|l: i32| levels@.contains_key(l) implies 1 <= l <= 9 by {
                let k = choose|k: int| 0 <= k < rows.len() && rows[k].level == l;
                assert(1 <= rows[k].level <= 9);
            }
            assert forall|l: i32| 1 <= l <= 9 implies levels@.contains_key(l) by {
                assert(holds_level(rows@, l as int));
            }
        }
        Ok(LevelEffects { levels })
    }

    /// What a unit of `level` takes from the table: a rating for life and one
    /// for damage, each left out when it is the identity.
    pub fn corrections(&self, level: i32) -> (result: Result<Vec<(Channel, Entry)>, Error>)
        ensures
            match self.levels@.get(level) {
                Some(row) => (result matches Ok(written) && written@ == level_written(row)),
                None => (result matches Err(error) && error.message@ == "unit level "@ + decimal_spec(level as int)
                    + " is not supported: the build's table covers levels 1 through 9"@),
            },
    {
        match self.levels.get(&level) {
            None => {
                let number = decimal(level as i64);
                Err(Error::new(join3("unit level ", number.as_str(), " is not supported: the build's table covers levels 1 through 9")))
            },
            Some(row) => {
                let mut written: Vec<(Channel, Entry)> = Vec::new();
                if row.life_rating != IDENTITY_RATING {
                    written.push((Channel::Base, Entry { index: Index::MaxLife, source: LEVEL_SOURCE, correction: Correction::Rating(row.life_rating) }));
                }
                if row.damage_rating != IDENTITY_RATING {
                    written.push((Channel::Base, Entry { index: Index::AttackDamage, source: LEVEL_SOURCE, correction: Correction::Rating(row.damage_rating) }));
                }
                assert(written@ =~= level_written(*row));
                Ok(written)
            },
        }
    }
}

} // verus!
