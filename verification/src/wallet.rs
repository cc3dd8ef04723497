//! The wallet file.

use vstd::prelude::*;
use vstd::string::StringExecFns;

pub mod balance;

verus! {

/// The error of `toml` for a text that is not valid TOML. It is carried as it is.
#[verifier::external_type_specification]
#[verifier::external_body]
pub struct ExTomlError(toml::de::Error);

/// What `toml` finds in a TOML document under a key of a table: nothing at all if the text is not
/// valid TOML, no entry if there is no such table or key, and no text if the entry is not a string.
pub uninterp spec fn toml_entry(document: Seq<char>, table: Seq<char>, key: Seq<char>) -> Option<
    Option<Option<Seq<char>>>,
>;

/// Looks up a string in a TOML document with `toml::from_str`, `Map::get`, `Value::get` and
/// `Value::as_str`. Claims that the outcome depends on the document and the names alone; which
/// outcome it is, is left unsaid.
#[verifier::external_body]
fn toml_lookup(document: &str, table: &str, key: &str) -> (entry: Result<
    Option<Option<String>>,
    toml::de::Error,
>)
    ensures
        match entry {
            Err(_) => toml_entry(document@, table@, key@) is None,
            Ok(None) => toml_entry(document@, table@, key@) == Some(None::<Option<Seq<char>>>),
            Ok(Some(None)) => toml_entry(document@, table@, key@) == Some(Some(None::<Seq<char>>)),
            Ok(Some(Some(text))) => toml_entry(document@, table@, key@) == Some(Some(Some(text@))),
        },
{
    let document: toml::Table = toml::from_str(document)?;
    let entry = document.get(table).and_then(|table| table.get(key));
    Ok(entry.map(|entry| entry.as_str().map(str::to_owned)))
}

/// A wallet file storing a single spend authority.
#[derive(Debug, PartialEq, Eq)]
pub struct Wallet {
    /// The spend key, as it is written in the file.
    pub spend_key: String,
}

/// Why a wallet file cannot be read.
#[derive(Debug)]
pub enum WalletError {
    /// The file is not valid TOML.
    Malformed(toml::de::Error),
    /// There is no spend key, or it is not a string.
    NoSpendKey,
}

impl WalletError {
    /// Returns what is said of a file without a spend key.
    pub fn no_spend_key_message() -> (text: String)
        ensures
            text@ == "'spend_key' field not found in custody TOML file"@,
    {
        "'spend_key' field not found in custody TOML file".to_owned()
    }
}

/// What stands for the spend key in a wallet file.
pub open spec fn spend_key_entry(contents: Seq<char>) -> Option<Option<Option<Seq<char>>>> {
    toml_entry(contents, "custody"@, "spend_key"@)
}

impl Wallet {
    /// Makes a wallet of the text that stands for the spend key in a file, if there is one.
    pub fn new(entry: Option<String>) -> (wallet: Result<Wallet, WalletError>)
        ensures
            match entry {
                Some(spend_key) => wallet == Ok::<_, WalletError>((Wallet { spend_key })),
                None => wallet == Err::<Wallet, _>(WalletError::NoSpendKey),
            },
    {
        match entry {
            Some(spend_key) => Ok(Wallet { spend_key }),
            None => Err(WalletError::NoSpendKey),
        }
    }

    /// Reads the wallet data from the contents of the file.
    pub fn load(contents: &str) -> (wallet: Result<Wallet, WalletError>)
        ensures
            match spend_key_entry(contents@) {
                None => wallet matches Err(WalletError::Malformed(_)),
                Some(Some(Some(key))) => wallet matches Ok(wallet) && wallet.spend_key@ == key,
                Some(_) => wallet == Err::<Wallet, _>(WalletError::NoSpendKey),
            },
    {
        match toml_lookup(contents, "custody", "spend_key") {
            Err(error) => Err(WalletError::Malformed(error)),
            Ok(Some(entry)) => Wallet::new(entry),
            Ok(None) => Wallet::new(None),
        }
    }

    /// Returns what is said of a spend key that is not valid.
    pub fn invalid_key_message(&self) -> (text: String)
        ensures
            text@ == "Could not create SpendKey from string: "@ + self.spend_key@,
    {
        let mut text = String::new();
        text.append("Could not create SpendKey from string: ");
        text.append(self.spend_key.as_str());
        assert(text@ =~= "Could not create SpendKey from string: "@ + self.spend_key@);
        text
    }
}

/// The spend key of a wallet is the text that the entry `spend_key` of the table `custody` holds, and
/// there is no wallet without one.
pub proof fn law_the_spend_key_is_read(contents: &str, wallet: Result<Wallet, WalletError>)
    requires
        call_ensures(Wallet::load, (contents,), wallet),
    ensures
        wallet matches Ok(wallet) ==> toml_entry(contents@, "custody"@, "spend_key"@) == Some(
            Some(Some(wallet.spend_key@)),
        ),
        wallet matches Err(WalletError::Malformed(_)) ==> toml_entry(
            contents@,
            "custody"@,
            "spend_key"@,
        ) is None,
        wallet matches Err(WalletError::NoSpendKey) ==> {
            let entry = toml_entry(contents@, "custody"@, "spend_key"@);
            entry is Some && !(entry->0 matches Some(Some(_)))
        },
{
}

} // verus!
