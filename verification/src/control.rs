//! The decisions of the table commands: the settings an update asks for, the names that
//! backups and restored tables get, and the backup that a restore picks.
use vstd::prelude::*;
use crate::text::{decimal, push_chars, push_str, u64_to_decimal};
use crate::ddb::table::{mode_of, TableDescription};
use crate::util::{extract_mode, Mode};

verus! {

/// What a ListBackups call says of a backup: its name and ARN.
#[derive(Debug, PartialEq, Eq)]
pub struct BackupSummary {
    pub backup_name: Option<String>,
    pub backup_arn: Option<String>,
}

/// The name of a backup of `table` taken at `epoch` (seconds): `<table>--dynein-<epoch>`.
pub open spec fn backup_name_text(table: Seq<char>, epoch: u64) -> Seq<char> {
    table + "--dynein-"@ + decimal(epoch as nat)
}

/// The name of a backup of `table` taken at `epoch`.
pub fn backup_name(table: &str, epoch: u64) -> (r: String)
    ensures
        r@ == backup_name_text(table@, epoch),
{
    let mut r = String::from_str(table);
    push_str(&mut r, "--dynein-");
    push_chars(&mut r, &u64_to_decimal(epoch));
    r
}

/// The name of the table that a restore creates: the given name, else
/// `<source table>--restore-<epoch>`.
pub open spec fn restore_table_name_text(source: Seq<char>, restore_name: Option<Seq<char>>, epoch: u64) -> Seq<
    char,
> {
    match restore_name {
        Some(n) => n,
        None => source + "--restore-"@ + decimal(epoch as nat),
    }
}

/// The name of the table that a restore of a backup of `source` at `epoch` creates.
pub fn restore_table_name(source: &str, restore_name: Option<String>, epoch: u64) -> (r: String)
    ensures
        r@ == restore_table_name_text(
            source@,
            match restore_name {
                Some(n) => Some(n@),
                None => None,
            },
            epoch,
        ),
{
    match restore_name {
        Some(n) => n,
        None => {
            let mut r = String::from_str(source);
            push_str(&mut r, "--restore-");
            push_chars(&mut r, &u64_to_decimal(epoch));
            r
        },
    }
}

/// The index of the first backup named `name`, or -1.
pub open spec fn backup_index(bs: Seq<BackupSummary>, name: Seq<char>) -> int
    decreases bs.len(),
{
    if bs.len() == 0 {
        -1
    } else if backup_index(bs.drop_last(), name) >= 0 {
        backup_index(bs.drop_last(), name)
    } else if bs.last().backup_name matches Some(n) && n@ == name {
        bs.len() - 1
    } else {
        -1
    }
}

/// Whether the backups before the first one named `name` (all of them when none is) have
/// a name, so that they can be compared with it.
pub open spec fn named_up_to(bs: Seq<BackupSummary>, name: Seq<char>) -> bool {
    let k = if backup_index(bs, name) >= 0 {
        backup_index(bs, name)
    } else {
        bs.len() as int
    };
    forall|j: int| 0 <= j < k ==> (#[trigger] bs[j]).backup_name is Some
}

proof fn lemma_backup_index_step(bs: Seq<BackupSummary>, name: Seq<char>, i: int)
    requires
        0 <= i < bs.len(),
        backup_index(bs.take(i), name) == -1,
    ensures
        (bs[i].backup_name matches Some(n) && n@ == name) ==> backup_index(bs.take(i + 1), name) == i,
        !(bs[i].backup_name matches Some(n) && n@ == name) ==> backup_index(bs.take(i + 1), name) == -1,
{
    assert(bs.take(i + 1).drop_last() =~= bs.take(i));
}

proof fn lemma_backup_index_prefix(bs: Seq<BackupSummary>, name: Seq<char>, i: int)
    requires
        0 <= i <= bs.len(),
        backup_index(bs.take(i), name) >= 0,
    ensures
        backup_index(bs, name) == backup_index(bs.take(i), name),
    decreases bs.len() - i,
{
    if i < bs.len() {
        assert(bs.take(i + 1).drop_last() =~= bs.take(i));
        lemma_backup_index_prefix(bs, name, i + 1);
    } else {
        assert(bs.take(i) =~= bs);
    }
}

proof fn lemma_backup_index_bound(bs: Seq<BackupSummary>, name: Seq<char>)
    ensures
        -1 <= backup_index(bs, name) < bs.len(),
    decreases bs.len(),
{
    if bs.len() > 0 {
        lemma_backup_index_bound(bs.drop_last(), name);
    }
}

proof fn lemma_backup_index_found(bs: Seq<BackupSummary>, name: Seq<char>)
    requires
        backup_index(bs, name) >= 0,
    ensures
        backup_index(bs, name) < bs.len(),
        bs[backup_index(bs, name)].backup_name matches Some(n) && n@ == name,
    decreases bs.len(),
{
    if backup_index(bs.drop_last(), name) >= 0 {
        lemma_backup_index_found(bs.drop_last(), name);
    }
}

proof fn lemma_backup_index_take(bs: Seq<BackupSummary>, name: Seq<char>, i: int)
    requires
        0 <= backup_index(bs, name) < i <= bs.len(),
    ensures
        backup_index(bs.take(i), name) == backup_index(bs, name),
    decreases bs.len(),
{
    if i < bs.len() {
        assert(bs.drop_last().take(i) =~= bs.take(i));
        lemma_backup_index_take(bs.drop_last(), name, i);
    } else {
        assert(bs.take(i) =~= bs);
    }
}

/// The ARN of the first backup named `backup_name`; `None` when there is no such backup,
/// or it has no ARN.
pub fn fetch_arn_from_backup_name(backup_name: &str, available_backups: &Vec<BackupSummary>) -> (r: Option<
    String,
>)
    requires
        named_up_to(available_backups@, backup_name@),
    ensures
        ({
            let k = backup_index(available_backups@, backup_name@);
            match r {
                Some(a) => k >= 0 && (available_backups@[k].backup_arn matches Some(x) && x@ == a@),
                None => k < 0 || available_backups@[k].backup_arn is None,
            }
        }),
{
    let ghost bs = available_backups@;
    let ghost name = backup_name@;
    let target = String::from_str(backup_name);
    proof {
        lemma_backup_index_bound(bs, name);
    }
    let mut i: usize = 0;
    assert(bs.take(0) =~= Seq::<BackupSummary>::empty());
    while i < available_backups.len()
        invariant
            i <= available_backups.len(),
            bs == available_backups@,
            target@ == name,
            name == backup_name@,
            named_up_to(bs, name),
            -1 <= backup_index(bs, name) < bs.len(),
            backup_index(bs.take(i as int), name) == -1,
        decreases available_backups.len() - i,
    {
        proof {
            lemma_backup_index_step(bs, name, i as int);
        }
        match &available_backups[i].backup_name {
            Some(n) => {
                if *n == target {
                    proof {
                        assert(n@ == name);
                        assert(backup_index(bs.take(i + 1), name) == i);
                        lemma_backup_index_prefix(bs, name, i + 1);
                        assert(backup_index(bs, name) == i);
                    }
                    let arn = match &available_backups[i].backup_arn {
                        Some(a) => {
                            let c = a.clone();
                            assert(c@ == a@);
                            Some(c)
                        },
                        None => None,
                    };
                    return arn;
                }
            },
            None => {
                proof {
                    let k = backup_index(bs, name);
                    if k >= 0 && k < i {
                        lemma_backup_index_take(bs, name, i as int);
                    }
                    if k >= 0 {
                        lemma_backup_index_found(bs, name);
                    }
                    assert(bs[i as int].backup_name is Some);
                }
                return None;
            },
        }
        i = i + 1;
    }
    assert(bs.take(bs.len() as int) =~= bs);
    None
}


/// The capacity units to set on a provisioned table.
#[derive(Debug, Clone, Copy, PartialEq, Eq, Structural)]
pub struct ProvisionedThroughput {
    pub read_capacity_units: i64,
    pub write_capacity_units: i64,
}

/// Why an update ignores the `--rcu`/`--wcu` options it was given.
#[derive(Debug, Clone, Copy, PartialEq, Eq, Structural)]
pub enum IgnoredCapacity {
    /// The table is on demand, and stays so.
    OnDemandTable,
    /// The table switches to on demand.
    OnDemandMode,
}

impl IgnoredCapacity {
    /// The note printed for it.
    pub fn to_string(&self) -> (r: String)
        ensures
            r@ == match self {
                IgnoredCapacity::OnDemandTable => "Ignoring --rcu/--wcu options as the table mode is OnDemand."@,
                IgnoredCapacity::OnDemandMode => "Ignoring --rcu/--wcu options as --mode ondemand."@,
            },
    {
        match self {
            IgnoredCapacity::OnDemandTable => String::from_str(
                "Ignoring --rcu/--wcu options as the table mode is OnDemand.",
            ),
            IgnoredCapacity::OnDemandMode => String::from_str("Ignoring --rcu/--wcu options as --mode ondemand."),
        }
    }
}

/// What an UpdateTable call is asked to set: the capacity mode to switch to, if any, the
/// capacity units, if any, and the capacity options it ignores.
#[derive(Debug, PartialEq, Eq)]
pub struct TableUpdate {
    pub mode: Option<Mode>,
    pub provisioned_throughput: Option<ProvisionedThroughput>,
    pub ignored: Option<IgnoredCapacity>,
}

/// The capacity mode that a `--mode` value names.
pub open spec fn mode_text(s: Seq<char>) -> Option<Mode> {
    if s == "provisioned"@ {
        Some(Mode::Provisioned)
    } else if s == "ondemand"@ {
        Some(Mode::OnDemand)
    } else {
        None
    }
}

/// The capacity units that a provisioned table keeps unless given: its current ones.
pub open spec fn current_units_known(desc: TableDescription, wcu: Option<i64>, rcu: Option<i64>) -> bool {
    &&& rcu is None ==> (desc.provisioned_throughput matches Some(d) && d.read_capacity_units is Some)
    &&& wcu is None ==> (desc.provisioned_throughput matches Some(d) && d.write_capacity_units is Some)
}

/// What an update of a table asks for. Without a mode switch, an on-demand table gets
/// no capacity units (the given ones are ignored) and a provisioned one keeps its own
/// where none is given. A switch to on demand sets no units (the given ones are ignored);
/// a switch to provisioned sets the given ones, 5 where none is given.
pub open spec fn table_update_spec(
    desc: TableDescription,
    mode: Option<Mode>,
    wcu: Option<i64>,
    rcu: Option<i64>,
) -> (Option<Mode>, Option<ProvisionedThroughput>, Option<IgnoredCapacity>) {
    let given = wcu is Some || rcu is Some;
    match mode {
        None => match mode_of(desc.billing_mode_summary) {
            Mode::OnDemand => (
                None,
                None,
                if given {
                    Some(IgnoredCapacity::OnDemandTable)
                } else {
                    None
                },
            ),
            Mode::Provisioned => (
                None,
                Some(
                    ProvisionedThroughput {
                        read_capacity_units: match rcu {
                            Some(r) => r,
                            None => desc.provisioned_throughput.unwrap().read_capacity_units.unwrap(),
                        },
                        write_capacity_units: match wcu {
                            Some(w) => w,
                            None => desc.provisioned_throughput.unwrap().write_capacity_units.unwrap(),
                        },
                    },
                ),
                None,
            ),
        },
        Some(Mode::OnDemand) => (
            Some(Mode::OnDemand),
            None,
            if given {
                Some(IgnoredCapacity::OnDemandMode)
            } else {
                None
            },
        ),
        Some(Mode::Provisioned) => (
            Some(Mode::Provisioned),
            Some(
                ProvisionedThroughput {
                    read_capacity_units: match rcu {
                        Some(r) => r,
                        None => 5,
                    },
                    write_capacity_units: match wcu {
                        Some(w) => w,
                        None => 5,
                    },
                },
            ),
            None,
        ),
    }
}

/// Whether an update of the table that `desc` describes can be planned: the mode, if
/// given, is `provisioned` or `ondemand`; a billing mode summary names its mode; and a
/// provisioned table that keeps its mode has current units for those not given.
pub open spec fn table_update_ok(
    desc: TableDescription,
    mode_string: Option<Seq<char>>,
    wcu: Option<i64>,
    rcu: Option<i64>,
) -> bool {
    &&& mode_string matches Some(m) ==> mode_text(m) is Some
    &&& desc.billing_mode_summary matches Some(x) ==> x.billing_mode is Some
    &&& (mode_string is None && mode_of(desc.billing_mode_summary) == Mode::Provisioned)
        ==> current_units_known(desc, wcu, rcu)
}

/// Whether an update of the table that `desc` describes can be planned (see
/// [`table_update_ok`]).
pub fn table_update_valid(
    desc: &TableDescription,
    mode_string: &Option<String>,
    wcu: Option<i64>,
    rcu: Option<i64>,
) -> (b: bool)
    ensures
        b == table_update_ok(
            *desc,
            match mode_string {
                Some(m) => Some(m@),
                None => None,
            },
            wcu,
            rcu,
        ),
{
    proof {
        reveal_strlit("provisioned");
        reveal_strlit("ondemand");
    }
    let mode_ok = match mode_string {
        None => true,
        Some(m) => *m == String::from_str("provisioned") || *m == String::from_str("ondemand"),
    };
    if !mode_ok {
        return false;
    }
    let summary_ok = match &desc.billing_mode_summary {
        Some(x) => x.billing_mode.is_some(),
        None => true,
    };
    if !summary_ok {
        return false;
    }
    if mode_string.is_some() {
        return true;
    }
    match extract_mode(&desc.billing_mode_summary) {
        Mode::OnDemand => true,
        Mode::Provisioned => {
            let (r_known, w_known) = match &desc.provisioned_throughput {
                Some(d) => (d.read_capacity_units.is_some(), d.write_capacity_units.is_some()),
                None => (false, false),
            };
            (rcu.is_some() || r_known) && (wcu.is_some() || w_known)
        },
    }
}

/// What an update of the table that `desc` describes asks for, given the `--mode`,
/// `--wcu` and `--rcu` options.
pub fn table_update(desc: &TableDescription, mode_string: &Option<String>, wcu: Option<i64>, rcu: Option<i64>) -> (r:
    TableUpdate)
    requires
        table_update_ok(
            *desc,
            match mode_string {
                Some(m) => Some(m@),
                None => None,
            },
            wcu,
            rcu,
        ),
    ensures
        (r.mode, r.provisioned_throughput, r.ignored) == table_update_spec(
            *desc,
            match mode_string {
                Some(m) => mode_text(m@),
                None => None,
            },
            wcu,
            rcu,
        ),
{
    proof {
        reveal_strlit("provisioned");
        reveal_strlit("ondemand");
    }
    let switching: Option<Mode> = match mode_string {
        None => None,
        Some(ms) => if *ms == String::from_str("provisioned") {
            Some(Mode::Provisioned)
        } else {
            Some(Mode::OnDemand)
        },
    };
    let given = wcu.is_some() || rcu.is_some();
    match switching {
        None => match extract_mode(&desc.billing_mode_summary) {
            Mode::OnDemand => TableUpdate {
                mode: None,
                provisioned_throughput: None,
                ignored: if given {
                    Some(IgnoredCapacity::OnDemandTable)
                } else {
                    None
                },
            },
            Mode::Provisioned => {
                let (cur_r, cur_w) = match &desc.provisioned_throughput {
                    Some(d) => (d.read_capacity_units, d.write_capacity_units),
                    None => (None, None),
                };
                let read = match rcu {
                    Some(r) => r,
                    None => match cur_r {
                        Some(r) => r,
                        None => 0,
                    },
                };
                let write = match wcu {
                    Some(w) => w,
                    None => match cur_w {
                        Some(w) => w,
                        None => 0,
                    },
                };
                TableUpdate {
                    mode: None,
                    provisioned_throughput: Some(
                        ProvisionedThroughput { read_capacity_units: read, write_capacity_units: write },
                    ),
                    ignored: None,
                }
            },
        },
        Some(Mode::OnDemand) => TableUpdate {
            mode: Some(Mode::OnDemand),
            provisioned_throughput: None,
            ignored: if given {
                Some(IgnoredCapacity::OnDemandMode)
            } else {
                None
            },
        },
        Some(Mode::Provisioned) => TableUpdate {
            mode: Some(Mode::Provisioned),
            provisioned_throughput: Some(
                ProvisionedThroughput {
                    read_capacity_units: match rcu {
                        Some(r) => r,
                        None => 5,
                    },
                    write_capacity_units: match wcu {
                        Some(w) => w,
                        None => 5,
                    },
                },
            ),
            ignored: None,
        },
    }
}
/// An update of a provisioned table that keeps its mode sets each capacity unit to the
/// one given, and keeps the table's current one where none is given; nothing is ignored.
pub proof fn law_table_update_keeps_units_not_given(
    desc: TableDescription,
    wcu: Option<i64>,
    rcu: Option<i64>,
)
    requires
        table_update_ok(desc, None, wcu, rcu),
        mode_of(desc.billing_mode_summary) == Mode::Provisioned,
    ensures
        ({
            let (mode, units, ignored) = table_update_spec(desc, None, wcu, rcu);
            let current = desc.provisioned_throughput.unwrap();
            &&& mode is None
            &&& ignored is None
            &&& units matches Some(t)
            &&& wcu is None ==> Some(t.write_capacity_units) == current.write_capacity_units
            &&& rcu is None ==> Some(t.read_capacity_units) == current.read_capacity_units
            &&& wcu matches Some(w) ==> t.write_capacity_units == w
            &&& rcu matches Some(r) ==> t.read_capacity_units == r
        }),
{
}

/// Whatever the mode, units that an update plans are the ones given where they are
/// given; units are planned exactly when the table is or becomes provisioned.
pub proof fn law_table_update_uses_given_units(
    desc: TableDescription,
    mode: Option<Mode>,
    wcu: Option<i64>,
    rcu: Option<i64>,
)
    ensures
        ({
            let units = table_update_spec(desc, mode, wcu, rcu).1;
            &&& units is Some <==> (mode == Some(Mode::Provisioned) || (mode is None && mode_of(
                desc.billing_mode_summary,
            ) == Mode::Provisioned))
            &&& units matches Some(t) ==> (wcu matches Some(w) ==> t.write_capacity_units == w) && (
            rcu matches Some(r) ==> t.read_capacity_units == r)
        }),
{
}

/// A switch to provisioned mode sets the given units, and 5 for each one not given; a
/// switch to on-demand mode sets no units and reports given ones as ignored.
pub proof fn law_table_update_mode_switch(desc: TableDescription, wcu: Option<i64>, rcu: Option<i64>)
    ensures
        ({
            let (mode, units, ignored) = table_update_spec(desc, Some(Mode::Provisioned), wcu, rcu);
            &&& mode == Some(Mode::Provisioned) && ignored is None
            &&& units matches Some(t) && t.write_capacity_units == (if wcu is Some {
                wcu.unwrap()
            } else {
                5
            }) && t.read_capacity_units == (if rcu is Some {
                rcu.unwrap()
            } else {
                5
            })
        }),
        ({
            let (mode, units, ignored) = table_update_spec(desc, Some(Mode::OnDemand), wcu, rcu);
            &&& mode == Some(Mode::OnDemand) && units is None
            &&& ignored is Some <==> (wcu is Some || rcu is Some)
        }),
{
}

} // verus!
