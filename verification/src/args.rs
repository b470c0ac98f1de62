//! The options of one build, as the command line gives them.

use vstd::prelude::*;
use crate::manager::ManagerOpts;

verus! {

/// The options of one build.
#[derive(Debug, Clone)]
pub struct ZkBuildArgs {
    /// Contract filename from the project's source directory, such as `Contract.sol`.
    pub contract_name: String,
    /// The compiler to build with: `x.y.z`, `solc:x.y.z` or the path of a compiler.
    pub use_zksolc: Option<String>,
    /// Whether to compile in system mode.
    pub is_system: bool,
}

/// The mathematical value of a [`ZkBuildArgs`].
pub struct ZkBuildArgsView {
    pub contract_name: Seq<char>,
    pub use_zksolc: Option<Seq<char>>,
    pub is_system: bool,
}

impl View for ZkBuildArgs {
    type V = ZkBuildArgsView;

    open spec fn view(&self) -> ZkBuildArgsView {
        ZkBuildArgsView {
            contract_name: self.contract_name@,
            use_zksolc: match self.use_zksolc {
                Some(v) => Some(v@),
                None => None,
            },
            is_system: self.is_system,
        }
    }
}

impl Default for ZkBuildArgs {
    /// No contract, no compiler chosen, system mode off.
    fn default() -> (r: Self)
        ensures
            r@ == (ZkBuildArgsView {
                contract_name: Seq::empty(),
                use_zksolc: None,
                is_system: false,
            }),
    {
        ZkBuildArgs { contract_name: String::new(), use_zksolc: None, is_system: false }
    }
}

/// A value that the options hand to the project's configuration.
#[derive(Clone, Debug)]
pub enum ConfigValue {
    Text(String),
    Flag(bool),
}

/// The mathematical value of a [`ConfigValue`].
pub enum ConfigValueView {
    Text(Seq<char>),
    Flag(bool),
}

impl View for ConfigValue {
    type V = ConfigValueView;

    open spec fn view(&self) -> ConfigValueView {
        match self {
            ConfigValue::Text(t) => ConfigValueView::Text(t@),
            ConfigValue::Flag(b) => ConfigValueView::Flag(*b),
        }
    }
}

/// One setting that the options hand to the project's configuration.
#[derive(Clone, Debug)]
pub struct ConfigEntry {
    pub key: String,
    pub value: ConfigValue,
}

/// The mathematical value of a [`ConfigEntry`].
pub struct ConfigEntryView {
    pub key: Seq<char>,
    pub value: ConfigValueView,
}

impl View for ConfigEntry {
    type V = ConfigEntryView;

    open spec fn view(&self) -> ConfigEntryView {
        ConfigEntryView { key: self.key@, value: self.value@ }
    }
}

/// The values of `list`, in order.
pub open spec fn entry_views(list: Seq<ConfigEntry>) -> Seq<ConfigEntryView> {
    Seq::new(list.len(), |i: int| list[i]@)
}

impl ZkBuildArgsView {
    /// What the options hand to the project's configuration: the contract
    /// name and the system-mode flag. The choice of compiler is not handed on.
    pub open spec fn data(self) -> Seq<ConfigEntryView> {
        seq![
            ConfigEntryView {
                key: "contract_name"@,
                value: ConfigValueView::Text(self.contract_name),
            },
            ConfigEntryView { key: "is_system"@, value: ConfigValueView::Flag(self.is_system) },
        ]
    }
}

/// The compiler that is used when the command line names none.
pub fn default_compiler() -> (r: &'static str)
    ensures
        r@ == "v1.3.9"@,
{
    "v1.3.9"
}

impl ZkBuildArgs {
    /// The name under which these options appear as a source of configuration.
    pub fn metadata(&self) -> (r: &'static str)
        ensures
            r@ == "Build Args Provider"@,
    {
        "Build Args Provider"
    }

    /// What these options hand to the project's configuration.
    pub fn data(&self) -> (r: Vec<ConfigEntry>)
        ensures
            entry_views(r@) == self@.data(),
    {
        let mut list: Vec<ConfigEntry> = Vec::new();
        list.push(
            ConfigEntry {
                key: "contract_name".to_owned(),
                value: ConfigValue::Text(self.contract_name.clone()),
            },
        );
        list.push(
            ConfigEntry { key: "is_system".to_owned(), value: ConfigValue::Flag(self.is_system) },
        );
        assert(entry_views(list@) =~= self@.data());
        list
    }

    /// What the compiler manager is built from: the compiler chosen.
    pub fn manager_opts(&self) -> (r: ManagerOpts)
        requires
            self.use_zksolc is Some,
        ensures
            Some(r.version@) == self@.use_zksolc,
    {
        match &self.use_zksolc {
            Some(version) => ManagerOpts { version: version.clone() },
            None => ManagerOpts { version: String::new() },
        }
    }
}

} // verus!
