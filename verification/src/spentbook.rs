use vstd::prelude::*;

verus! {

// The ledger collaborator and the value-transfer artifacts are values of the
// `sn_dbc` crate. They are opaque here: the library stores, routes and logs
// them, and every operation on them goes through one of the trusted
// functions below.
#[verifier::external_type_specification]
#[verifier::external_body]
pub struct ExSpentbookLedger(sn_dbc::mock::SpentbookNode);

#[verifier::external_type_specification]
#[verifier::external_body]
pub struct ExDbcTransaction(sn_dbc::DbcTransaction);

#[verifier::external_type_specification]
#[verifier::external_body]
pub struct ExSignedSpend(sn_dbc::SignedSpend);

#[verifier::external_type_specification]
#[verifier::external_body]
pub struct ExDbc(sn_dbc::Dbc);

#[verifier::external_type_specification]
#[verifier::external_body]
pub struct ExMainKey(sn_dbc::MainKey);

#[verifier::external_type_specification]
#[verifier::external_body]
pub struct ExPublicAddress(sn_dbc::PublicAddress);

#[verifier::external_type_specification]
#[verifier::external_body]
pub struct ExDerivedKey(sn_dbc::DerivedKey);

#[verifier::external_type_specification]
#[verifier::external_body]
pub struct ExTransactionBuilder(sn_dbc::TransactionBuilder);

#[verifier::external_type_specification]
#[verifier::external_body]
pub struct ExDbcBuilder(sn_dbc::DbcBuilder);

#[verifier::external_type_specification]
#[verifier::external_body]
pub struct ExDbcError(sn_dbc::Error);

/// One record of the durable spend log: the transaction a spend belongs to
/// and the signed spend itself, exactly what the ledger call takes.
pub struct SpentLogEntry {
    pub transaction: sn_dbc::DbcTransaction,
    pub signed_spend: sn_dbc::SignedSpend,
}

/// Relies on sn_dbc::mock::SpentbookNode::default, which makes an empty
/// ledger.
#[verifier::external_body]
pub(crate) fn new_spentbook_ledger() -> sn_dbc::mock::SpentbookNode {
    sn_dbc::mock::SpentbookNode::default()
}

/// Relies on sn_dbc::mock::SpentbookNode::log_spent: it records a valid
/// spend, and rejects a transaction that does not match the spend, an
/// invalid transaction, or a double spend, leaving the decision to the
/// ledger.
#[verifier::external_body]
pub(crate) fn spentbook_log_spent(
    ledger: &mut sn_dbc::mock::SpentbookNode,
    tx: &sn_dbc::DbcTransaction,
    signed_spend: &sn_dbc::SignedSpend,
) -> Result<(), sn_dbc::Error> {
    ledger.log_spent(tx, signed_spend)
}

/// Relies on ron::to_string: one human-inspectable line per accepted spend.
#[verifier::external_body]
pub(crate) fn encode_log_entry(entry: &SpentLogEntry) -> Option<String> {
    ron::to_string(&(&entry.transaction, &entry.signed_spend)).ok()
}

/// Relies on ron::from_str: the reverse of the encoding above; a malformed
/// line is rejected.
#[verifier::external_body]
pub(crate) fn parse_log_entry(line: &String) -> Option<SpentLogEntry> {
    match ron::from_str::<(sn_dbc::DbcTransaction, sn_dbc::SignedSpend)>(line) {
        Ok((transaction, signed_spend)) => Some(SpentLogEntry { transaction, signed_spend }),
        Err(_) => None,
    }
}

/// Relies on bincode::serialize: a byte form of a signed spend, for the
/// node's acknowledging signature.
#[verifier::external_body]
pub(crate) fn signed_spend_bytes(signed_spend: &sn_dbc::SignedSpend) -> Option<Vec<u8>> {
    bincode::serialize(signed_spend).ok()
}

/// Relies on the derived Clone of sn_dbc::DbcTransaction, which copies the
/// value.
#[verifier::external_body]
pub(crate) fn clone_transaction(tx: &sn_dbc::DbcTransaction) -> (r: sn_dbc::DbcTransaction)
    ensures
        r == *tx,
{
    tx.clone()
}

/// Relies on the derived Clone of sn_dbc::SignedSpend, which copies the
/// value.
#[verifier::external_body]
pub(crate) fn clone_signed_spend(signed_spend: &sn_dbc::SignedSpend) -> (r: sn_dbc::SignedSpend)
    ensures
        r == *signed_spend,
{
    signed_spend.clone()
}

/// Relies on the derived Clone of sn_dbc::Error, which copies the value.
#[verifier::external_body]
pub(crate) fn clone_dbc_error(e: &sn_dbc::Error) -> (r: sn_dbc::Error)
    ensures
        r == *e,
{
    e.clone()
}

/// Relies on sn_dbc::Dbc::token: the face value in the smallest unit, absent
/// if the value's own output is missing from its source transaction.
#[verifier::external_body]
pub(crate) fn dbc_token_nano(dbc: &sn_dbc::Dbc) -> Option<u64> {
    dbc.token().ok().map(|t| t.as_nano())
}

/// Relies on sn_dbc::Dbc::hash, a 32-byte digest identifying the value.
#[verifier::external_body]
pub(crate) fn dbc_hash_bytes(dbc: &sn_dbc::Dbc) -> (r: Vec<u8>)
    ensures
        r@.len() == 32,
{
    dbc.hash().slice().to_vec()
}

/// Relies on sn_dbc::Dbc::public_address and
/// sn_dbc::PublicAddress::to_bytes: the 48-byte recipient address.
#[verifier::external_body]
pub(crate) fn dbc_address_bytes(dbc: &sn_dbc::Dbc) -> (r: Vec<u8>)
    ensures
        r@.len() == 48,
{
    dbc.public_address().to_bytes().to_vec()
}

/// Relies on sn_dbc::MainKey::public_address and
/// sn_dbc::PublicAddress::to_bytes: the 48-byte address a key controls.
#[verifier::external_body]
pub(crate) fn main_key_address_bytes(key: &sn_dbc::MainKey) -> (r: Vec<u8>)
    ensures
        r@.len() == 48,
{
    key.public_address().to_bytes().to_vec()
}

/// Relies on chrono::Utc::now: the wall clock, read as whole seconds.
/// Nothing is stated of it.
#[verifier::external_body]
pub(crate) fn now_timestamp() -> i64 {
    chrono::Utc::now().timestamp()
}

/// Relies on sn_dbc::MainKey::random: a fresh receiving key.
#[verifier::external_body]
pub(crate) fn new_main_key() -> sn_dbc::MainKey {
    sn_dbc::MainKey::random()
}

/// Relies on sn_dbc::MainKey::public_address.
#[verifier::external_body]
pub(crate) fn main_key_public_address(key: &sn_dbc::MainKey) -> sn_dbc::PublicAddress {
    key.public_address()
}

/// Relies on blsttc::PublicKey::from_bytes and sn_dbc::PublicAddress::new: a
/// recipient address read back from its 48 bytes, absent if the bytes are no
/// valid key.
#[verifier::external_body]
pub(crate) fn public_address_from_bytes(bytes: &Vec<u8>) -> Option<sn_dbc::PublicAddress> {
    let arr: [u8; 48] = bytes.as_slice().try_into().ok()?;
    let pk = sn_dbc::blsttc::PublicKey::from_bytes(arr).ok()?;
    Some(sn_dbc::PublicAddress::new(pk))
}

/// Relies on sn_dbc::Dbc::derived_key: the key that can spend this value,
/// available only to the holder of the matching main key.
#[verifier::external_body]
pub(crate) fn dbc_derived_key(dbc: &sn_dbc::Dbc, key: &sn_dbc::MainKey) -> Result<
    sn_dbc::DerivedKey,
    sn_dbc::Error,
> {
    dbc.derived_key(key)
}

/// Relies on sn_dbc::TransactionBuilder::default.
#[verifier::external_body]
pub(crate) fn tx_builder_new() -> sn_dbc::TransactionBuilder {
    sn_dbc::TransactionBuilder::default()
}

/// Relies on sn_dbc::TransactionBuilder::add_input_dbc.
#[verifier::external_body]
pub(crate) fn tx_add_input_dbc(
    builder: sn_dbc::TransactionBuilder,
    dbc: &sn_dbc::Dbc,
    derived_key: &sn_dbc::DerivedKey,
) -> Result<sn_dbc::TransactionBuilder, sn_dbc::Error> {
    builder.add_input_dbc(dbc, derived_key)
}

/// Relies on sn_dbc::TransactionBuilder::add_output.
#[verifier::external_body]
pub(crate) fn tx_add_output(
    builder: sn_dbc::TransactionBuilder,
    amount_nano: u64,
    to: &sn_dbc::PublicAddress,
    derivation_index: [u8; 32],
) -> sn_dbc::TransactionBuilder {
    builder.add_output(sn_dbc::Token::from_nano(amount_nano), *to, derivation_index)
}

/// Relies on sn_dbc::random_derivation_index: fresh randomness linking a new
/// value to its recipient.
#[verifier::external_body]
pub(crate) fn new_derivation_index() -> [u8; 32] {
    sn_dbc::random_derivation_index(&mut sn_dbc::rand::thread_rng())
}

/// Relies on sn_dbc::TransactionBuilder::build: it signs the inputs and
/// yields the builder of the output values.
#[verifier::external_body]
pub(crate) fn tx_build(builder: sn_dbc::TransactionBuilder) -> Result<sn_dbc::DbcBuilder, sn_dbc::Error> {
    builder.build(sn_dbc::Hash::default())
}

/// Relies on sn_dbc::DbcBuilder::signed_spends and the spent transaction it
/// carries: one (transaction, signed spend) pair per transaction input,
/// exactly what each ledger must record.
#[verifier::external_body]
pub(crate) fn dbc_builder_spends(builder: &sn_dbc::DbcBuilder) -> Vec<SpentLogEntry> {
    builder
        .signed_spends()
        .into_iter()
        .map(|ss| SpentLogEntry {
            transaction: builder.spent_tx.clone(),
            signed_spend: ss.clone(),
        })
        .collect()
}

/// Relies on sn_dbc::DbcBuilder::build: it verifies the transaction against
/// its signed spends and yields each output value with its face value in the
/// smallest unit.
#[verifier::external_body]
pub(crate) fn dbc_builder_outputs(builder: sn_dbc::DbcBuilder) -> Result<
    Vec<(sn_dbc::Dbc, u64)>,
    sn_dbc::Error,
> {
    builder.build().map(|v| v.into_iter().map(|(d, t)| (d, t.as_nano())).collect())
}

/// Relies on bincode::serialize on sn_dbc::Dbc: the byte form a value is
/// passed around in.
#[verifier::external_body]
pub(crate) fn dbc_to_bytes(dbc: &sn_dbc::Dbc) -> Option<Vec<u8>> {
    bincode::serialize(dbc).ok()
}

/// Relies on bincode::deserialize on sn_dbc::Dbc: the reverse of the byte
/// form above; malformed bytes are rejected.
#[verifier::external_body]
pub(crate) fn dbc_from_bytes(bytes: &Vec<u8>) -> Option<sn_dbc::Dbc> {
    bincode::deserialize(bytes).ok()
}

/// Relies on sn_dbc::mock::GenesisMaterial and
/// sn_dbc::TransactionBuilder: the one transaction that mints the whole
/// supply, together with the main key that owns its output.
#[verifier::external_body]
pub(crate) fn prepare_genesis_builder() -> Result<(sn_dbc::DbcBuilder, sn_dbc::MainKey), sn_dbc::Error> {
    let material = sn_dbc::mock::GenesisMaterial::default();
    let builder = sn_dbc::TransactionBuilder::default()
        .add_input(
            material.genesis_tx.0.inputs[0].clone(),
            material.genesis_tx.1.clone(),
            material.genesis_tx.2.clone(),
        )
        .add_output(
            material.genesis_tx.0.outputs[0].token,
            material.main_key.public_address(),
            material.derivation_index,
        )
        .build(sn_dbc::Hash::default())?;
    Ok((builder, material.main_key))
}

} // verus!
