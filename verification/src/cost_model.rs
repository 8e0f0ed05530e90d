//! An estimate of what a transaction costs a block, in compute units.

use crate::pubkey::Pubkey;
use crate::weighted_shuffle::{lemma_prefix_sum_monotone, prefix_sum, total_weight};
use vstd::prelude::*;

verus! {

/// The room that a cost is given for writable accounts.
pub const MAX_WRITABLE_ACCOUNTS: usize = 256;

/// The compute units that one microsecond of execution stands for.
pub const COMPUTE_UNIT_TO_US_RATIO: u64 = 30;

/// The compute units of one signature verification.
pub const SIGNATURE_COST: u64 = COMPUTE_UNIT_TO_US_RATIO * 24;

/// The compute units of one write lock.
pub const WRITE_LOCK_UNITS: u64 = COMPUTE_UNIT_TO_US_RATIO * 10;

/// The bytes of instruction data that cost one compute unit.
pub const DATA_BYTES_UNITS: u64 = 550 / COMPUTE_UNIT_TO_US_RATIO;

/// The system program.
pub open spec fn system_program() -> Pubkey {
    Pubkey { hi: 0, lo: 0 }
}

/// The vote program, `Vote111111111111111111111111111111111111111`.
pub open spec fn vote_program() -> Pubkey {
    Pubkey { hi: 0x761481d357474bb7c4d7624ebd3bdb3, lo: 0xd8355e73d11043fc0da3538000000000 }
}

/// The costs of the programs that are built into the runtime, in compute
/// units: the feature program, the incinerator, the native loader, the
/// stake configuration, the stake program, the configuration program, the
/// vote program, the two signature verifiers and the system program.
pub open spec fn built_in_costs() -> Seq<(Pubkey, u64)> {
    seq![
        (
            Pubkey { hi: 0x3c0a0cdcb06d2daefae82d16fee7acf, lo: 0x61ec737b23481b21946a767000000000 },
            60u64,
        ),
        (
            Pubkey { hi: 0x3390728d34116079bdc911bfff00db, lo: 0xd44d2ecdccf79ca6e10038e100000000 },
            60u64,
        ),
        (
            Pubkey { hi: 0x58784bf148ba4282fb012574888a9f1, lo: 0x53a07dadf765c0455c9a970380000000 },
            60u64,
        ),
        (
            Pubkey { hi: 0x6a1d817a502050b680791e6ce6db88e, lo: 0x1e5b7150f61fc6790a4eb4d100000000 },
            60u64,
        ),
        (
            Pubkey { hi: 0x6a1d8179137542a983437bdfe2a7ab2, lo: 0x557f535c8a78722b68a49dc000000000 },
            750u64,
        ),
        (
            Pubkey { hi: 0x3064aa3002f74dcc86e43310f0c052a, lo: 0xf8c5da27f6104019a323efa000000000 },
            450u64,
        ),
        (vote_program(), 2100u64),
        (
            Pubkey { hi: 0x4c6fc20f050ccf05584d7211c9f8cf5, lo: 0x9ec14785bb166a1e2830e81220000000 },
            720u64,
        ),
        (
            Pubkey { hi: 0x37d46d67c93fbbe12f9428f838d40ff, lo: 0x570744927f48a64fcca704480000000 },
            720u64,
        ),
        (system_program(), 150u64),
    ]
}

/// The costs of the programs that are built into the runtime: so many
/// microseconds of execution each, in compute units.
pub fn built_in_instruction_costs() -> (costs: Vec<(Pubkey, u64)>)
    ensures
        costs@ == built_in_costs(),
{
    let costs: Vec<(Pubkey, u64)> = vec![
        (
            Pubkey { hi: 0x3c0a0cdcb06d2daefae82d16fee7acf, lo: 0x61ec737b23481b21946a767000000000 },
            COMPUTE_UNIT_TO_US_RATIO * 2,
        ),
        (
            Pubkey { hi: 0x3390728d34116079bdc911bfff00db, lo: 0xd44d2ecdccf79ca6e10038e100000000 },
            COMPUTE_UNIT_TO_US_RATIO * 2,
        ),
        (
            Pubkey { hi: 0x58784bf148ba4282fb012574888a9f1, lo: 0x53a07dadf765c0455c9a970380000000 },
            COMPUTE_UNIT_TO_US_RATIO * 2,
        ),
        (
            Pubkey { hi: 0x6a1d817a502050b680791e6ce6db88e, lo: 0x1e5b7150f61fc6790a4eb4d100000000 },
            COMPUTE_UNIT_TO_US_RATIO * 2,
        ),
        (
            Pubkey { hi: 0x6a1d8179137542a983437bdfe2a7ab2, lo: 0x557f535c8a78722b68a49dc000000000 },
            COMPUTE_UNIT_TO_US_RATIO * 25,
        ),
        (
            Pubkey { hi: 0x3064aa3002f74dcc86e43310f0c052a, lo: 0xf8c5da27f6104019a323efa000000000 },
            COMPUTE_UNIT_TO_US_RATIO * 15,
        ),
        (
            Pubkey { hi: 0x761481d357474bb7c4d7624ebd3bdb3, lo: 0xd8355e73d11043fc0da3538000000000 },
            COMPUTE_UNIT_TO_US_RATIO * 70,
        ),
        (
            Pubkey { hi: 0x4c6fc20f050ccf05584d7211c9f8cf5, lo: 0x9ec14785bb166a1e2830e81220000000 },
            COMPUTE_UNIT_TO_US_RATIO * 24,
        ),
        (
            Pubkey { hi: 0x37d46d67c93fbbe12f9428f838d40ff, lo: 0x570744927f48a64fcca704480000000 },
            COMPUTE_UNIT_TO_US_RATIO * 24,
        ),
        (Pubkey { hi: 0, lo: 0 }, COMPUTE_UNIT_TO_US_RATIO * 5),
    ];
    assert(costs@ =~= built_in_costs());
    costs
}

/// The costs of a transaction, in compute units.
#[derive(Debug)]
pub struct TransactionCost {
    pub writable_accounts: Vec<Pubkey>,
    pub signature_cost: u64,
    pub write_lock_cost: u64,
    pub data_bytes_cost: u64,
    pub execution_cost: u64,
    /// A multiplier for the cost; zero lets the transaction pass the cost
    /// limit of a block.
    pub cost_weight: u32,
    pub account_data_size: u64,
}

impl Default for TransactionCost {
    fn default() -> (cost: TransactionCost)
        ensures
            cost.is_reset(),
            cost.account_data_size == 0,
    {
        TransactionCost {
            writable_accounts: Vec::with_capacity(MAX_WRITABLE_ACCOUNTS),
            signature_cost: 0u64,
            write_lock_cost: 0u64,
            data_bytes_cost: 0u64,
            execution_cost: 0u64,
            cost_weight: 1u32,
            account_data_size: 0u64,
        }
    }
}

impl TransactionCost {
    /// Whether the cost is that of no transaction: no writable accounts, no
    /// costs, and the weight one.
    pub open spec fn is_reset(self) -> bool {
        &&& self.writable_accounts@.len() == 0
        &&& self.signature_cost == 0
        &&& self.write_lock_cost == 0
        &&& self.data_bytes_cost == 0
        &&& self.execution_cost == 0
        &&& self.cost_weight == 1
    }

    /// The sum of the four costs.
    pub open spec fn spec_sum(self) -> int {
        self.signature_cost + self.write_lock_cost + self.data_bytes_cost + self.execution_cost
    }

    /// The cost of no transaction, with room for `capacity` writable
    /// accounts.
    pub fn new_with_capacity(capacity: usize) -> (cost: TransactionCost)
        ensures
            cost.is_reset(),
            cost.account_data_size == 0,
    {
        TransactionCost {
            writable_accounts: Vec::with_capacity(capacity),
            signature_cost: 0u64,
            write_lock_cost: 0u64,
            data_bytes_cost: 0u64,
            execution_cost: 0u64,
            cost_weight: 1u32,
            account_data_size: 0u64,
        }
    }

    /// Makes the cost that of no transaction. The account data size stays.
    pub fn reset(&mut self)
        ensures
            final(self).is_reset(),
            final(self).account_data_size == old(self).account_data_size,
    {
        self.writable_accounts.clear();
        self.signature_cost = 0;
        self.write_lock_cost = 0;
        self.data_bytes_cost = 0;
        self.execution_cost = 0;
        self.cost_weight = 1;
    }

    /// The sum of the four costs, which must fit `u64`.
    pub fn sum(&self) -> (sum: u64)
        requires
            self.spec_sum() <= u64::MAX,
        ensures
            sum == self.spec_sum(),
    {
        self.signature_cost + self.write_lock_cost + self.data_bytes_cost + self.execution_cost
    }
}

/// What is known of a program's cost: the running average of the costs
/// reported for it, and how often one was reported.
#[derive(Clone, Copy, Debug, PartialEq, Eq, Structural)]
pub struct ProgramCost {
    pub program: Pubkey,
    pub cost: u64,
    pub occurrences: u64,
}

/// The costs of programs as executions have reported them.
#[derive(Debug)]
pub struct ExecuteCostTable {
    entries: Vec<ProgramCost>,
}

/// The first position at or after `k` that holds `program`; the length
/// where there is none.
pub open spec fn program_from(entries: Seq<ProgramCost>, program: Pubkey, k: int) -> int
    decreases entries.len() - k,
{
    if k < 0 || k >= entries.len() {
        entries.len() as int
    } else if entries[k].program == program {
        k
    } else {
        program_from(entries, program, k + 1)
    }
}

/// The cost that `entries` hold for `program`, if any.
pub open spec fn cost_in(entries: Seq<ProgramCost>, program: Pubkey) -> Option<u64> {
    let at = program_from(entries, program, 0);
    if at < entries.len() {
        Some(entries[at].cost)
    } else {
        None
    }
}

/// The position among the first `upto` entries of the one that was
/// reported most often, the first of them where several were; `-1` where
/// there is none.
pub open spec fn mode_position(entries: Seq<ProgramCost>, upto: int) -> int
    decreases upto,
{
    if upto <= 0 || upto > entries.len() {
        -1
    } else {
        let before = mode_position(entries, upto - 1);
        if before >= 0 && entries[before].occurrences >= entries[upto - 1].occurrences {
            before
        } else {
            upto - 1
        }
    }
}

/// The cost of the program that was reported most often; zero where none
/// was reported.
pub open spec fn mode_of(entries: Seq<ProgramCost>) -> u64 {
    let at = mode_position(entries, entries.len() as int);
    if at >= 0 {
        entries[at].cost
    } else {
        0
    }
}

/// The average of two costs, rounded down.
pub open spec fn average(a: u64, b: u64) -> u64 {
    ((a + b) / 2) as u64
}

/// The entries after `cost` was reported for `program`: a program that is
/// new to the table enters with that cost; the cost of a known program
/// becomes the average of what it was and `cost`. Either way the program
/// was reported once more.
pub open spec fn reported(entries: Seq<ProgramCost>, program: Pubkey, cost: u64) -> Seq<ProgramCost> {
    let at = program_from(entries, program, 0);
    if at < entries.len() {
        entries.update(
            at,
            ProgramCost {
                program,
                cost: average(entries[at].cost, cost),
                occurrences: if entries[at].occurrences < u64::MAX {
                    (entries[at].occurrences + 1) as u64
                } else {
                    u64::MAX
                },
            },
        )
    } else {
        entries.push(ProgramCost { program, cost, occurrences: 1 })
    }
}

pub proof fn lemma_program_from(entries: Seq<ProgramCost>, program: Pubkey, k: int)
    requires
        0 <= k <= entries.len(),
    ensures
        k <= program_from(entries, program, k) <= entries.len(),
        program_from(entries, program, k) < entries.len() ==> entries[program_from(
            entries,
            program,
            k,
        )].program == program,
        forall|i: int|
            k <= i < program_from(entries, program, k) ==> (#[trigger] entries[i]).program != program,
    decreases entries.len() - k,
{
    if k < entries.len() && entries[k].program != program {
        lemma_program_from(entries, program, k + 1);
    }
}

/// After a report the table holds a cost for the program: the reported one
/// if the program is new, else the average.
pub proof fn lemma_reported(entries: Seq<ProgramCost>, program: Pubkey, cost: u64)
    ensures
        cost_in(reported(entries, program, cost), program) == Some(
            match cost_in(entries, program) {
                Some(before) => average(before, cost),
                None => cost,
            },
        ),
{
    lemma_program_from(entries, program, 0);
    let after = reported(entries, program, cost);
    lemma_program_from(after, program, 0);
    let at = program_from(entries, program, 0);
    if at < entries.len() {
        assert(after[at].program == program);
        assert forall|i: int| 0 <= i < at implies (#[trigger] after[i]).program != program by {
            assert(after[i] == entries[i]);
        }
    } else {
        assert(after[entries.len() as int].program == program);
        assert forall|i: int| 0 <= i < entries.len() implies (#[trigger] after[i]).program
            != program by {
            assert(after[i] == entries[i]);
        }
    }
}

/// A report for a program leaves every program that had a cost with a
/// cost, and the program itself with one.
pub proof fn lemma_reported_keeps(entries: Seq<ProgramCost>, program: Pubkey, cost: u64)
    ensures
        cost_in(reported(entries, program, cost), program).is_some(),
        forall|other: Pubkey| #[trigger]
            cost_in(entries, other).is_some() ==> cost_in(
                reported(entries, program, cost),
                other,
            ).is_some(),
{
    lemma_reported(entries, program, cost);
    let after = reported(entries, program, cost);
    assert forall|other: Pubkey| #[trigger] cost_in(entries, other).is_some() implies cost_in(
        after,
        other,
    ).is_some() by {
        lemma_program_from(entries, other, 0);
        lemma_program_from(entries, program, 0);
        lemma_program_from(after, other, 0);
        let at = program_from(entries, other, 0);
        assert(after[at].program == other);
    }
}

impl View for ExecuteCostTable {
    type V = Seq<ProgramCost>;

    closed spec fn view(&self) -> Seq<ProgramCost> {
        self.entries@
    }
}

impl Default for ExecuteCostTable {
    fn default() -> (table: ExecuteCostTable)
        ensures
            table@.len() == 0,
    {
        ExecuteCostTable { entries: Vec::new() }
    }
}

impl ExecuteCostTable {
    fn position(&self, key: &Pubkey) -> (found: Option<usize>)
        ensures
            found matches Some(i) ==> i == program_from(self@, *key, 0) && i < self@.len(),
            found.is_none() ==> program_from(self@, *key, 0) == self@.len(),
    {
        let len: usize = self.entries.len();
        let mut k: usize = 0;
        while k < len
            invariant
                k <= len,
                len == self.entries@.len(),
                program_from(self.entries@, *key, 0) == program_from(self.entries@, *key, k as int),
            decreases len - k,
        {
            if self.entries[k].program == *key {
                return Some(k);
            }
            k = k + 1;
        }
        None
    }

    /// The entries of the table.
    pub fn get_cost_table(&self) -> (table: &Vec<ProgramCost>)
        ensures
            table@ == self@,
    {
        &self.entries
    }

    /// The cost that the table holds for `key`, if any.
    pub fn get_cost(&self, key: &Pubkey) -> (cost: Option<u64>)
        ensures
            cost == cost_in(self@, *key),
    {
        match self.position(key) {
            Some(at) => Some(self.entries[at].cost),
            None => None,
        }
    }

    /// The cost of the program that was reported most often, the first of
    /// them in the table where several were; zero for an empty table.
    pub fn get_mode(&self) -> (mode: u64)
        ensures
            mode == mode_of(self@),
    {
        let len: usize = self.entries.len();
        if len == 0 {
            return 0;
        }
        let mut best: usize = 0;
        let mut k: usize = 1;
        assert(mode_position(self.entries@, 0) == -1);
        while k < len
            invariant
                1 <= k <= len,
                len == self.entries@.len(),
                best < k,
                best == mode_position(self.entries@, k as int),
            decreases len - k,
        {
            if self.entries[best].occurrences < self.entries[k].occurrences {
                best = k;
            }
            k = k + 1;
        }
        self.entries[best].cost
    }

    /// Reports `value` as a cost of `key`, and returns the cost that the
    /// table holds for it afterwards.
    pub fn upsert(&mut self, key: &Pubkey, value: u64) -> (cost: Option<u64>)
        ensures
            final(self)@ == reported(old(self)@, *key, value),
            cost == cost_in(final(self)@, *key),
            cost.is_some(),
    {
        proof {
            lemma_reported(self@, *key, value);
        }
        match self.position(key) {
            Some(at) => {
                let known: ProgramCost = self.entries[at];
                let cost: u64 = known.cost / 2 + value / 2 + (known.cost % 2 + value % 2) / 2;
                let occurrences: u64 = if known.occurrences < u64::MAX {
                    known.occurrences + 1
                } else {
                    u64::MAX
                };
                self.entries.set(at, ProgramCost { program: *key, cost, occurrences });
                Some(cost)
            },
            None => {
                self.entries.push(ProgramCost { program: *key, cost: value, occurrences: 1 });
                Some(value)
            },
        }
    }
}

/// A system instruction, as far as it says how much account data it asks
/// for.
#[derive(Clone, Copy, Debug, PartialEq, Eq, Structural)]
pub enum SystemInstruction {
    CreateAccount { space: u64 },
    CreateAccountWithSeed { space: u64 },
    Allocate { space: u64 },
    AllocateWithSeed { space: u64 },
    /// Any other system instruction.
    Other,
}

/// An instruction of a transaction with its program.
pub struct ProgramInstruction {
    pub program_id: Pubkey,
    pub data: Vec<u8>,
    /// What the data says, where the program is the system program and
    /// the data is an instruction of it.
    pub system_instruction: Option<SystemInstruction>,
}

/// What the cost model reads of a transaction.
pub struct SanitizedTransaction {
    /// The number of signatures.
    pub signatures: usize,
    /// The account keys, each with whether the transaction may write to
    /// the account.
    pub account_keys: Vec<(Pubkey, bool)>,
    pub instructions: Vec<ProgramInstruction>,
    /// Whether the transaction is a simple vote.
    pub is_simple_vote: bool,
}

/// The keys of the first `upto` accounts that may be written to.
pub open spec fn writable_keys(accounts: Seq<(Pubkey, bool)>, upto: int) -> Seq<Pubkey>
    decreases upto,
{
    if upto <= 0 || upto > accounts.len() {
        Seq::empty()
    } else if accounts[upto - 1].1 {
        writable_keys(accounts, upto - 1).push(accounts[upto - 1].0)
    } else {
        writable_keys(accounts, upto - 1)
    }
}

/// What an instruction costs for its data.
pub open spec fn data_cost(instruction: ProgramInstruction) -> u64 {
    (instruction.data@.len() / DATA_BYTES_UNITS as nat) as u64
}

/// The account data that an instruction asks for.
pub open spec fn data_size(instruction: ProgramInstruction) -> u64 {
    match instruction.system_instruction {
        Some(SystemInstruction::CreateAccount { space }) => space,
        Some(SystemInstruction::CreateAccountWithSeed { space }) => space,
        Some(SystemInstruction::Allocate { space }) => space,
        Some(SystemInstruction::AllocateWithSeed { space }) => space,
        _ => 0,
    }
}

/// What the instructions cost for their data, each by itself.
pub open spec fn data_costs(instructions: Seq<ProgramInstruction>) -> Seq<u64> {
    Seq::new(instructions.len(), |i: int| data_cost(instructions[i]))
}

/// The account data that the instructions ask for, each by itself.
pub open spec fn data_sizes(instructions: Seq<ProgramInstruction>) -> Seq<u64> {
    Seq::new(instructions.len(), |i: int| data_size(instructions[i]))
}

/// The sum of two costs, or the largest cost where the sum is beyond it.
pub open spec fn saturating(a: u64, b: u64) -> u64 {
    if a + b > u64::MAX {
        u64::MAX
    } else {
        (a + b) as u64
    }
}

/// What the first `upto` instructions cost to execute: for each the cost
/// that the table holds for its program, or the mode of the table; the sum
/// stops at the largest cost.
pub open spec fn execution_cost(
    table: Seq<ProgramCost>,
    instructions: Seq<ProgramInstruction>,
    upto: int,
) -> u64
    decreases upto,
{
    if upto <= 0 || upto > instructions.len() {
        0
    } else {
        saturating(
            execution_cost(table, instructions, upto - 1),
            instruction_cost(table, instructions[upto - 1].program_id),
        )
    }
}

/// The cost of one instruction of `program`.
pub open spec fn instruction_cost(table: Seq<ProgramCost>, program: Pubkey) -> u64 {
    match cost_in(table, program) {
        Some(cost) => cost,
        None => mode_of(table),
    }
}

impl SanitizedTransaction {
    /// Whether the costs of the transaction fit `u64`.
    pub open spec fn fits(&self) -> bool {
        &&& self.signatures * SIGNATURE_COST <= u64::MAX
        &&& self.account_keys@.len() * WRITE_LOCK_UNITS <= u64::MAX
        &&& total_weight(data_costs(self.instructions@)) <= u64::MAX
        &&& total_weight(data_sizes(self.instructions@)) <= u64::MAX
    }
}

/// Estimates the cost of transactions from what executions have reported.
#[derive(Debug)]
pub struct CostModel {
    instruction_execution_cost_table: ExecuteCostTable,
}

impl View for CostModel {
    type V = Seq<ProgramCost>;

    closed spec fn view(&self) -> Seq<ProgramCost> {
        self.instruction_execution_cost_table@
    }
}

impl Default for CostModel {
    fn default() -> (model: CostModel)
        ensures
            model@.len() == 0,
    {
        CostModel { instruction_execution_cost_table: ExecuteCostTable::default() }
    }
}

impl CostModel {
    /// A model that has heard of no program.
    pub fn new() -> (model: CostModel)
        ensures
            model@.len() == 0,
    {
        CostModel { instruction_execution_cost_table: ExecuteCostTable::default() }
    }

    /// The table after the costs of `cost_table` were reported, one after
    /// the other, up to the entry `upto`.
    pub open spec fn initialized(table: Seq<ProgramCost>, cost_table: Seq<(Pubkey, u64)>, upto: int) -> Seq<
        ProgramCost,
    >
        decreases upto,
    {
        if upto <= 0 || upto > cost_table.len() {
            table
        } else {
            reported(
                Self::initialized(table, cost_table, upto - 1),
                cost_table[upto - 1].0,
                cost_table[upto - 1].1,
            )
        }
    }

    /// Reports the costs of `cost_table`, one after the other, and after
    /// them the costs of the built-in programs. Afterwards the model holds
    /// a cost for every program of the table and for every built-in one.
    pub fn initialize_cost_table(&mut self, cost_table: &Vec<(Pubkey, u64)>)
        ensures
            final(self)@ == Self::initialized(
                old(self)@,
                cost_table@ + built_in_costs(),
                (cost_table@.len() + built_in_costs().len()) as int,
            ),
            forall|k: int|
                0 <= k < cost_table@.len() ==> cost_in(final(self)@, (#[trigger] cost_table@[k]).0).is_some(),
            forall|k: int|
                0 <= k < built_in_costs().len() ==> cost_in(
                    final(self)@,
                    (#[trigger] built_in_costs()[k]).0,
                ).is_some(),
    {
        let built_in: Vec<(Pubkey, u64)> = built_in_instruction_costs();
        let ghost all = cost_table@ + built_in_costs();
        let len: usize = cost_table.len();
        let mut i: usize = 0;
        while i < len
            invariant
                i <= len,
                len == cost_table@.len(),
                all == cost_table@ + built_in_costs(),
                self@ == Self::initialized(old(self)@, all, i as int),
                forall|k: int| 0 <= k < i ==> cost_in(self@, (#[trigger] all[k]).0).is_some(),
            decreases len - i,
        {
            let (program_id, cost) = cost_table[i];
            proof {
                lemma_reported_keeps(self@, program_id, cost);
                assert(all[i as int] == cost_table@[i as int]);
            }
            let _ = self.instruction_execution_cost_table.upsert(&program_id, cost);
            i = i + 1;
        }
        let more: usize = built_in.len();
        let mut j: usize = 0;
        while j < more
            invariant
                j <= more,
                more == built_in@.len(),
                built_in@ == built_in_costs(),
                len == cost_table@.len(),
                all == cost_table@ + built_in_costs(),
                self@ == Self::initialized(old(self)@, all, len + j),
                forall|k: int| 0 <= k < len + j ==> cost_in(self@, (#[trigger] all[k]).0).is_some(),
            decreases more - j,
        {
            let (program_id, cost) = built_in[j];
            proof {
                lemma_reported_keeps(self@, program_id, cost);
                assert(all[len + j] == built_in@[j as int]);
            }
            let _ = self.instruction_execution_cost_table.upsert(&program_id, cost);
            j = j + 1;
        }
        proof {
            assert forall|k: int| 0 <= k < cost_table@.len() implies cost_in(
                self@,
                (#[trigger] cost_table@[k]).0,
            ).is_some() by {
                assert(all[k] == cost_table@[k]);
            }
            assert forall|k: int| 0 <= k < built_in_costs().len() implies cost_in(
                self@,
                (#[trigger] built_in_costs()[k]).0,
            ).is_some() by {
                assert(all[len + k] == built_in_costs()[k]);
            }
        }
    }

    /// Reports `cost` as a cost of `program_key`, and returns the cost that
    /// the model holds for the program afterwards: `cost` for a program
    /// that was new to it, else the average of the former cost and `cost`.
    pub fn upsert_instruction_cost(&mut self, program_key: &Pubkey, cost: u64) -> (held: Result<
        u64,
        &'static str,
    >)
        ensures
            final(self)@ == reported(old(self)@, *program_key, cost),
            held matches Ok(held) && held == match cost_in(old(self)@, *program_key) {
                Some(before) => average(before, cost),
                None => cost,
            },
    {
        proof {
            lemma_reported(self@, *program_key, cost);
        }
        let _ = self.instruction_execution_cost_table.upsert(program_key, cost);
        match self.instruction_execution_cost_table.get_cost(program_key) {
            Some(cost) => Ok(cost),
            None => Err("failed to upsert to ExecuteCostTable"),
        }
    }

    /// What the model holds: for each program that was reported its cost
    /// and how often it was reported, in the order in which they came.
    pub fn get_instruction_cost_table(&self) -> (table: &Vec<ProgramCost>)
        ensures
            table@ == self@,
    {
        self.instruction_execution_cost_table.get_cost_table()
    }

    /// The cost of one instruction of `program_key`: the cost that the
    /// model holds for the program, or the mode of all costs.
    pub fn find_instruction_cost(&self, program_key: &Pubkey) -> (cost: u64)
        ensures
            cost == instruction_cost(self@, *program_key),
    {
        match self.instruction_execution_cost_table.get_cost(program_key) {
            Some(cost) => cost,
            None => self.instruction_execution_cost_table.get_mode(),
        }
    }

    /// The cost of verifying the signatures.
    pub fn get_signature_cost(&self, transaction: &SanitizedTransaction) -> (cost: u64)
        requires
            transaction.signatures * SIGNATURE_COST <= u64::MAX,
        ensures
            cost == transaction.signatures * SIGNATURE_COST,
    {
        transaction.signatures as u64 * SIGNATURE_COST
    }

    /// Adds to `tx_cost` the accounts that the transaction may write to,
    /// and a write lock for each.
    pub fn get_write_lock_cost(&self, tx_cost: &mut TransactionCost, transaction: &SanitizedTransaction)
        requires
            old(tx_cost).write_lock_cost + transaction.account_keys@.len() * WRITE_LOCK_UNITS
                <= u64::MAX,
        ensures
            final(tx_cost).writable_accounts@ == old(tx_cost).writable_accounts@ + writable_keys(
                transaction.account_keys@,
                transaction.account_keys@.len() as int,
            ),
            final(tx_cost).write_lock_cost == old(tx_cost).write_lock_cost + writable_keys(
                transaction.account_keys@,
                transaction.account_keys@.len() as int,
            ).len() * WRITE_LOCK_UNITS,
            final(tx_cost).signature_cost == old(tx_cost).signature_cost,
            final(tx_cost).data_bytes_cost == old(tx_cost).data_bytes_cost,
            final(tx_cost).execution_cost == old(tx_cost).execution_cost,
            final(tx_cost).cost_weight == old(tx_cost).cost_weight,
            final(tx_cost).account_data_size == old(tx_cost).account_data_size,
    {
        let len: usize = transaction.account_keys.len();
        let ghost accounts = transaction.account_keys@;
        let ghost before = tx_cost.writable_accounts@;
        let ghost start = tx_cost.write_lock_cost;
        let mut i: usize = 0;
        assert(before + Seq::<Pubkey>::empty() == before);
        while i < len
            invariant
                i <= len,
                len == accounts.len(),
                accounts == transaction.account_keys@,
                start + len * WRITE_LOCK_UNITS <= u64::MAX,
                WRITE_LOCK_UNITS == 300,
                writable_keys(accounts, i as int).len() <= i,
                tx_cost.writable_accounts@ == before + writable_keys(accounts, i as int),
                tx_cost.write_lock_cost == start + writable_keys(accounts, i as int).len()
                    * WRITE_LOCK_UNITS,
                tx_cost.signature_cost == old(tx_cost).signature_cost,
                tx_cost.data_bytes_cost == old(tx_cost).data_bytes_cost,
                tx_cost.execution_cost == old(tx_cost).execution_cost,
                tx_cost.cost_weight == old(tx_cost).cost_weight,
                tx_cost.account_data_size == old(tx_cost).account_data_size,
            decreases len - i,
        {
            let (key, is_writable) = transaction.account_keys[i];
            if is_writable {
                let ghost keys = writable_keys(accounts, i as int);
                assert((before + keys).push(key) == before + keys.push(key));
                tx_cost.writable_accounts.push(key);
                tx_cost.write_lock_cost = tx_cost.write_lock_cost + WRITE_LOCK_UNITS;
            }
            i = i + 1;
        }
    }

    /// The cost of the instruction data: for each instruction a unit for
    /// every so many bytes.
    pub fn get_data_bytes_cost(&self, transaction: &SanitizedTransaction) -> (cost: u64)
        requires
            total_weight(data_costs(transaction.instructions@)) <= u64::MAX,
        ensures
            cost == total_weight(data_costs(transaction.instructions@)),
    {
        let len: usize = transaction.instructions.len();
        let ghost costs = data_costs(transaction.instructions@);
        let mut data_bytes_cost: u64 = 0;
        let mut i: usize = 0;
        while i < len
            invariant
                i <= len,
                len == transaction.instructions@.len(),
                costs == data_costs(transaction.instructions@),
                total_weight(costs) <= u64::MAX,
                data_bytes_cost == prefix_sum(costs, i as int),
            decreases len - i,
        {
            proof {
                lemma_prefix_sum_monotone(costs, i + 1, len as int);
            }
            data_bytes_cost = data_bytes_cost + transaction.instructions[i].data.len() as u64
                / DATA_BYTES_UNITS;
            i = i + 1;
        }
        data_bytes_cost
    }

    /// The cost of executing the instructions: for each the cost of its
    /// program; the sum stops at the largest cost.
    pub fn get_transaction_cost(&self, transaction: &SanitizedTransaction) -> (cost: u64)
        ensures
            cost == execution_cost(
                self@,
                transaction.instructions@,
                transaction.instructions@.len() as int,
            ),
    {
        let len: usize = transaction.instructions.len();
        let mut cost: u64 = 0;
        let mut i: usize = 0;
        while i < len
            invariant
                i <= len,
                len == transaction.instructions@.len(),
                cost == execution_cost(self@, transaction.instructions@, i as int),
            decreases len - i,
        {
            let instruction_cost: u64 = self.find_instruction_cost(
                &transaction.instructions[i].program_id,
            );
            cost = cost.saturating_add(instruction_cost);
            i = i + 1;
        }
        cost
    }

    /// The account data that a system instruction asks for.
    pub fn calculate_account_data_size_on_deserialized_system_instruction(
        instruction: SystemInstruction,
    ) -> (size: u64)
        ensures
            size == match instruction {
                SystemInstruction::CreateAccount { space } => space,
                SystemInstruction::CreateAccountWithSeed { space } => space,
                SystemInstruction::Allocate { space } => space,
                SystemInstruction::AllocateWithSeed { space } => space,
                SystemInstruction::Other => 0,
            },
    {
        match instruction {
            SystemInstruction::CreateAccount { space } => space,
            SystemInstruction::CreateAccountWithSeed { space } => space,
            SystemInstruction::Allocate { space } => space,
            SystemInstruction::AllocateWithSeed { space } => space,
            SystemInstruction::Other => 0,
        }
    }

    /// The account data that an instruction asks for: that of its system
    /// instruction, if it is one.
    pub fn calculate_account_data_size_on_instruction(instruction: &ProgramInstruction) -> (size:
        u64)
        ensures
            size == data_size(*instruction),
    {
        if let Some(system_instruction) = instruction.system_instruction {
            return Self::calculate_account_data_size_on_deserialized_system_instruction(
                system_instruction,
            );
        }
        0
    }

    /// The account data that the instructions of a transaction ask for.
    pub fn calculate_account_data_size(&self, transaction: &SanitizedTransaction) -> (size: u64)
        requires
            total_weight(data_sizes(transaction.instructions@)) <= u64::MAX,
        ensures
            size == total_weight(data_sizes(transaction.instructions@)),
    {
        let len: usize = transaction.instructions.len();
        let ghost sizes = data_sizes(transaction.instructions@);
        let mut size: u64 = 0;
        let mut i: usize = 0;
        while i < len
            invariant
                i <= len,
                len == transaction.instructions@.len(),
                sizes == data_sizes(transaction.instructions@),
                total_weight(sizes) <= u64::MAX,
                size == prefix_sum(sizes, i as int),
            decreases len - i,
        {
            proof {
                lemma_prefix_sum_monotone(sizes, i + 1, len as int);
            }
            size = size + Self::calculate_account_data_size_on_instruction(
                &transaction.instructions[i],
            );
            i = i + 1;
        }
        size
    }

    /// The weight of a transaction: zero for a simple vote, which passes
    /// the cost limit of a block; else one.
    pub fn calculate_cost_weight(&self, transaction: &SanitizedTransaction) -> (weight: u32)
        ensures
            weight == if transaction.is_simple_vote {
                0u32
            } else {
                1u32
            },
    {
        if transaction.is_simple_vote {
            0u32
        } else {
            1u32
        }
    }

    /// The costs of a transaction, which must fit `u64`.
    pub fn calculate_cost(&self, transaction: &SanitizedTransaction) -> (tx_cost: TransactionCost)
        requires
            transaction.fits(),
        ensures
            tx_cost.signature_cost == transaction.signatures * SIGNATURE_COST,
            tx_cost.writable_accounts@ == writable_keys(
                transaction.account_keys@,
                transaction.account_keys@.len() as int,
            ),
            tx_cost.write_lock_cost == tx_cost.writable_accounts@.len() * WRITE_LOCK_UNITS,
            tx_cost.data_bytes_cost == total_weight(data_costs(transaction.instructions@)),
            tx_cost.execution_cost == execution_cost(
                self@,
                transaction.instructions@,
                transaction.instructions@.len() as int,
            ),
            tx_cost.cost_weight == if transaction.is_simple_vote {
                0u32
            } else {
                1u32
            },
            tx_cost.account_data_size == total_weight(data_sizes(transaction.instructions@)),
    {
        let mut tx_cost = TransactionCost::new_with_capacity(MAX_WRITABLE_ACCOUNTS);
        tx_cost.signature_cost = self.get_signature_cost(transaction);
        self.get_write_lock_cost(&mut tx_cost, transaction);
        assert(Seq::<Pubkey>::empty() + writable_keys(
            transaction.account_keys@,
            transaction.account_keys@.len() as int,
        ) == writable_keys(transaction.account_keys@, transaction.account_keys@.len() as int));
        tx_cost.data_bytes_cost = self.get_data_bytes_cost(transaction);
        tx_cost.execution_cost = self.get_transaction_cost(transaction);
        tx_cost.cost_weight = self.calculate_cost_weight(transaction);
        tx_cost.account_data_size = self.calculate_account_data_size(transaction);
        tx_cost
    }
}

} // verus!
