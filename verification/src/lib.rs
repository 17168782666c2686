//! Recovers candidate function selectors from raw EVM bytecode and turns the
//! answers of a signature database into a report.
//!
//! Everything here is pure: bytes and strings go in, values come out. Reading
//! files, talking to an RPC node or to the signature database, and writing the
//! report are left to the caller, who does them between the steps that
//! [`Sigmund`] offers.

pub mod address;
pub mod bytecode;
pub mod client;
pub mod codec;
pub mod config;
pub mod selectors;
pub mod signature;

pub use address::Address;
pub use bytecode::Bytecode;
pub use signature::Signature;

use address::{address_check, is_address, AddressError};
use bytecode::scan;
use client::{aggregate, first_failure, lookup_url, resolve, ClientError, ResolutionOutcome};
use config::Config;
use selectors::{selectors_line, SelectorSet};
use signature::signature_line;
use vstd::prelude::*;
use vstd::utf8::encode_utf8;

verus! {

/// The result of a run: the selectors found, and the signatures they were
/// resolved into, if that was asked for.
#[derive(Debug)]
pub struct SigmundOut {
    /// The signatures; none where resolution was not asked for.
    pub signatures: Vec<Signature>,
    /// The selectors found in the bytecode.
    pub selectors: SelectorSet,
}

impl SigmundOut {
    /// A report of the given selectors and signatures.
    pub fn new(selectors: SelectorSet, signatures: Vec<Signature>) -> (r: SigmundOut)
        ensures
            r.selectors == selectors,
            r.signatures == signatures,
    {
        SigmundOut { selectors, signatures }
    }
}

/// Where the bytecode of a run comes from.
#[derive(Debug)]
pub enum Source {
    /// A file that holds the code as hexadecimal text; its path is given.
    File(String),
    /// The contract at this address, whose code an RPC node is asked for.
    Node(Address),
}

/// The steps of a run, as far as they decide or compute.
pub struct Sigmund {
    config: Config,
}

impl Sigmund {
    /// The settings of the run.
    pub closed spec fn settings(&self) -> Config {
        self.config
    }

    /// A run with the given settings.
    pub fn from_config(config: Config) -> (r: Sigmund)
        ensures
            r.settings() == config,
    {
        Sigmund { config }
    }

    /// The settings of the run.
    pub fn config(&self) -> (r: &Config)
        ensures
            *r == self.settings(),
    {
        &self.config
    }

    /// Where the bytecode comes from: the file where one is named, else the
    /// contract at the address, which has to be a valid one.
    pub fn source(&self) -> (r: Result<Source, AddressError>)
        requires
            self.settings().file is Some || self.settings().address is Some,
        ensures
            match self.settings().file {
                Some(path) => r == Ok::<Source, AddressError>(Source::File(path)),
                None => match r {
                    Ok(Source::Node(contract)) => contract@ == self.settings().address.unwrap()@
                        && is_address(contract@),
                    Ok(Source::File(_)) => false,
                    Err(why) => address_check(encode_utf8(self.settings().address.unwrap()@))
                        == Err::<(), AddressError>(why),
                },
            },
    {
        match &self.config.file {
            Some(path) => Ok(Source::File(path.clone())),
            None => match &self.config.address {
                Some(text) => match Address::try_from(text.clone()) {
                    Ok(contract) => Ok(Source::Node(contract)),
                    Err(why) => Err(why),
                },
                None => vstd::pervasive::unreached(),
            },
        }
    }

    /// The selectors of `bytecode`, scanned as deeply as the settings say.
    pub fn selectors(&self, bytecode: &Bytecode) -> (found: SelectorSet)
        ensures
            found@ == scan(bytecode.inner@, self.settings().deep),
    {
        bytecode.find_function_selectors(self.config.deep)
    }

    /// The addresses at which the signature database is to be asked: one
    /// for each selector where signatures are wanted, else none at all.
    pub fn lookups(&self, selectors: &SelectorSet) -> (urls: Option<Vec<String>>)
        ensures
            urls is Some <==> self.settings().signatures,
            urls matches Some(list) ==> {
                &&& list@.len() == selectors@.len()
                &&& list@.len() == selectors.ordered().len()
                &&& forall|i: int|
                    0 <= i < list@.len() ==> (#[trigger] list@[i])@ == lookup_url(
                        selectors.ordered()[i],
                    )
            },
    {
        if self.config.signatures {
            Some(client::signature_urls(selectors))
        } else {
            None
        }
    }

    /// What a run shows on the console for its report: a line for every
    /// signature where signatures are wanted, else one line with the
    /// selectors.
    pub fn console_lines(&self, out: &SigmundOut) -> (lines: Vec<String>)
        ensures
            if self.settings().signatures {
                &&& lines@.len() == out.signatures@.len()
                &&& forall|i: int|
                    0 <= i < lines@.len() ==> (#[trigger] lines@[i])@ == signature_line(
                        out.signatures@[i].hash@,
                        out.signatures@[i].text@,
                    )
            } else {
                &&& lines@.len() == 1
                &&& lines@[0]@ == selectors_line(out.selectors.ordered())
            },
    {
        let mut lines: Vec<String> = Vec::new();
        if self.config.signatures {
            let mut i: usize = 0;
            while i < out.signatures.len()
                invariant
                    i <= out.signatures@.len(),
                    lines@.len() == i,
                    forall|k: int|
                        0 <= k < i ==> (#[trigger] lines@[k])@ == signature_line(
                            out.signatures@[k].hash@,
                            out.signatures@[k].text@,
                        ),
                decreases out.signatures@.len() - i,
            {
                lines.push(out.signatures[i].to_string());
                i += 1;
            }
        } else {
            lines.push(out.selectors.to_string());
        }
        lines
    }

    /// The report of the run.
    ///
    /// Where signatures are wanted, `outcomes` are resolved under the
    /// policy of the settings, and one failed lookup fails the run. Where
    /// they are not, `outcomes` are not looked at and the report holds no
    /// signature.
    pub fn report(&self, selectors: SelectorSet, outcomes: &[ResolutionOutcome]) -> (r: Result<
        SigmundOut,
        ClientError,
    >)
        ensures
            match r {
                Ok(out) => {
                    &&& out.selectors == selectors
                    &&& if self.settings().signatures {
                        &&& first_failure(outcomes@) is None
                        &&& out.signatures@ == aggregate(outcomes@, self.settings().policy())
                    } else {
                        out.signatures@ == Seq::<Signature>::empty()
                    }
                },
                Err(why) => self.settings().signatures && first_failure(outcomes@) == Some(why),
            },
    {
        if self.config.signatures {
            match resolve(outcomes, self.config.policy()) {
                Ok(signatures) => Ok(SigmundOut::new(selectors, signatures)),
                Err(why) => Err(why),
            }
        } else {
            Ok(SigmundOut::new(selectors, Vec::new()))
        }
    }
}

} // verus!
