//! Getting the configuration of a chain together.
use vstd::prelude::*;

verus! {

/// What is to be done next to get the configuration together. If it fails, so
/// does the whole.
pub enum ConfigStep {
    /// Make the directory, with all that leads to it.
    CreateDir,
    /// Download the configuration file, whether or not there is one.
    DownloadConfig,
    /// Read the configuration file.
    LoadConfig,
    /// See whether the genesis file is there.
    FindGenesis { genesis_file: String, node_key_file: String },
    /// Download the genesis file.
    DownloadGenesis { genesis_file: String, node_key_file: String },
    /// See whether the key of the node is there.
    FindNodeKey { node_key_file: String },
    /// Make up a key for the node, and keep it.
    WriteNodeKey { node_key_file: String },
    /// All is there.
    Finished,
}

/// How a step went.
pub enum ConfigEvent {
    /// It is done.
    Done,
    /// The configuration file names these files.
    Loaded { genesis_file: String, node_key_file: String },
    /// Whether the file is there.
    Found(bool),
}

/// A step, with its names as text.
pub enum ConfigStepView {
    CreateDir,
    DownloadConfig,
    LoadConfig,
    FindGenesis { genesis_file: Seq<char>, node_key_file: Seq<char> },
    DownloadGenesis { genesis_file: Seq<char>, node_key_file: Seq<char> },
    FindNodeKey { node_key_file: Seq<char> },
    WriteNodeKey { node_key_file: Seq<char> },
    Finished,
}

impl View for ConfigStep {
    type V = ConfigStepView;

    open spec fn view(&self) -> ConfigStepView {
        match *self {
            ConfigStep::CreateDir => ConfigStepView::CreateDir,
            ConfigStep::DownloadConfig => ConfigStepView::DownloadConfig,
            ConfigStep::LoadConfig => ConfigStepView::LoadConfig,
            ConfigStep::FindGenesis { genesis_file, node_key_file } =>
                ConfigStepView::FindGenesis {
                genesis_file: genesis_file@,
                node_key_file: node_key_file@,
            },
            ConfigStep::DownloadGenesis { genesis_file, node_key_file } =>
                ConfigStepView::DownloadGenesis {
                genesis_file: genesis_file@,
                node_key_file: node_key_file@,
            },
            ConfigStep::FindNodeKey { node_key_file } => ConfigStepView::FindNodeKey {
                node_key_file: node_key_file@,
            },
            ConfigStep::WriteNodeKey { node_key_file } => ConfigStepView::WriteNodeKey {
                node_key_file: node_key_file@,
            },
            ConfigStep::Finished => ConfigStepView::Finished,
        }
    }
}

/// How a step went, with its names as text.
pub enum ConfigEventView {
    Done,
    Loaded { genesis_file: Seq<char>, node_key_file: Seq<char> },
    Found(bool),
}

impl View for ConfigEvent {
    type V = ConfigEventView;

    open spec fn view(&self) -> ConfigEventView {
        match *self {
            ConfigEvent::Done => ConfigEventView::Done,
            ConfigEvent::Loaded { genesis_file, node_key_file } => ConfigEventView::Loaded {
                genesis_file: genesis_file@,
                node_key_file: node_key_file@,
            },
            ConfigEvent::Found(b) => ConfigEventView::Found(b),
        }
    }
}

impl ConfigStepView {
    /// `e` is how a step like this can go.
    pub open spec fn expects(self, e: ConfigEventView) -> bool {
        match self {
            ConfigStepView::LoadConfig => e is Loaded,
            ConfigStepView::FindGenesis { .. } | ConfigStepView::FindNodeKey { .. } => e is Found,
            ConfigStepView::Finished => false,
            _ => e is Done,
        }
    }

    /// What is to be done after this step went as `e` says.
    pub open spec fn next(self, e: ConfigEventView) -> Self {
        match self {
            ConfigStepView::CreateDir => ConfigStepView::DownloadConfig,
            ConfigStepView::DownloadConfig => ConfigStepView::LoadConfig,
            ConfigStepView::LoadConfig => ConfigStepView::FindGenesis {
                genesis_file: e->genesis_file,
                node_key_file: e->node_key_file,
            },
            ConfigStepView::FindGenesis { genesis_file, node_key_file } => if e->Found_0 {
                ConfigStepView::FindNodeKey { node_key_file }
            } else {
                ConfigStepView::DownloadGenesis { genesis_file, node_key_file }
            },
            ConfigStepView::DownloadGenesis { genesis_file, node_key_file } =>
                ConfigStepView::FindNodeKey { node_key_file },
            ConfigStepView::FindNodeKey { node_key_file } => if e->Found_0 {
                ConfigStepView::Finished
            } else {
                ConfigStepView::WriteNodeKey { node_key_file }
            },
            ConfigStepView::WriteNodeKey { node_key_file } => ConfigStepView::Finished,
            ConfigStepView::Finished => ConfigStepView::Finished,
        }
    }
}

/// What is to be done first.
pub fn download_configs() -> (s: ConfigStep)
    ensures
        s is CreateDir,
{
    ConfigStep::CreateDir
}

impl ConfigStep {
    /// What is to be done after this step went as `e` says. A step that cannot
    /// go like that is given back.
    pub fn next(self, e: ConfigEvent) -> (r: Result<ConfigStep, ConfigStep>)
        ensures
            match r {
                Ok(s) => self@.expects(e@) && s@ == self@.next(e@),
                Err(s) => !self@.expects(e@) && s@ == self@,
            },
    {
        match (self, e) {
            (ConfigStep::CreateDir, ConfigEvent::Done) => Ok(ConfigStep::DownloadConfig),
            (ConfigStep::DownloadConfig, ConfigEvent::Done) => Ok(ConfigStep::LoadConfig),
            (
                ConfigStep::LoadConfig,
                ConfigEvent::Loaded { genesis_file, node_key_file },
            ) => Ok(ConfigStep::FindGenesis { genesis_file, node_key_file }),
            (
                ConfigStep::FindGenesis { genesis_file, node_key_file },
                ConfigEvent::Found(found),
            ) => if found {
                Ok(ConfigStep::FindNodeKey { node_key_file })
            } else {
                Ok(ConfigStep::DownloadGenesis { genesis_file, node_key_file })
            },
            (
                ConfigStep::DownloadGenesis { genesis_file: _, node_key_file },
                ConfigEvent::Done,
            ) => Ok(ConfigStep::FindNodeKey { node_key_file }),
            (ConfigStep::FindNodeKey { node_key_file }, ConfigEvent::Found(found)) => if found {
                Ok(ConfigStep::Finished)
            } else {
                Ok(ConfigStep::WriteNodeKey { node_key_file })
            },
            (ConfigStep::WriteNodeKey { node_key_file: _ }, ConfigEvent::Done) => Ok(
                ConfigStep::Finished,
            ),
            (s, _) => Err(s),
        }
    }
}

/// What a configuration file names, and which of it is there.
pub struct Files {
    pub genesis_file: Seq<char>,
    pub node_key_file: Seq<char>,
    pub has_genesis: bool,
    pub has_node_key: bool,
}

impl Files {
    /// How a step goes.
    pub open spec fn event(self, s: ConfigStepView) -> ConfigEventView {
        match s {
            ConfigStepView::LoadConfig => ConfigEventView::Loaded {
                genesis_file: self.genesis_file,
                node_key_file: self.node_key_file,
            },
            ConfigStepView::FindGenesis { .. } => ConfigEventView::Found(self.has_genesis),
            ConfigStepView::FindNodeKey { .. } => ConfigEventView::Found(self.has_node_key),
            _ => ConfigEventView::Done,
        }
    }

    /// The first `n` steps from `s` on.
    pub open spec fn steps(self, s: ConfigStepView, n: nat) -> Seq<ConfigStepView>
        decreases n,
    {
        if n == 0 || s is Finished {
            Seq::empty()
        } else {
            seq![s] + self.steps(s.next(self.event(s)), (n - 1) as nat)
        }
    }
}

/// The configuration is downloaded always, the genesis if it is not there, and a
/// key is made up only if there is none. These are all the steps there are.
pub proof fn only_what_is_missing_is_added(f: Files, n: nat)
    requires
        n >= 7,
    ensures
        f.steps(ConfigStepView::CreateDir, n) == seq![
            ConfigStepView::CreateDir,
            ConfigStepView::DownloadConfig,
            ConfigStepView::LoadConfig,
            ConfigStepView::FindGenesis {
                genesis_file: f.genesis_file,
                node_key_file: f.node_key_file,
            },
        ] + if f.has_genesis {
            Seq::<ConfigStepView>::empty()
        } else {
            seq![
                ConfigStepView::DownloadGenesis {
                    genesis_file: f.genesis_file,
                    node_key_file: f.node_key_file,
                },
            ]
        } + seq![ConfigStepView::FindNodeKey { node_key_file: f.node_key_file }]
            + if f.has_node_key {
            Seq::<ConfigStepView>::empty()
        } else {
            seq![ConfigStepView::WriteNodeKey { node_key_file: f.node_key_file }]
        },
{
    reveal_with_fuel(Files::steps, 8);
}

/// Each step but the last takes what it is told about the files, and no other
/// answer is taken for one.
pub proof fn each_step_takes_its_answer(f: Files, s: ConfigStepView, e: ConfigEventView)
    ensures
        !(s is Finished) ==> s.expects(f.event(s)),
        s.expects(e) ==> (e is Loaded <==> s is LoadConfig) && (e is Found <==> (s is FindGenesis
            || s is FindNodeKey)) && !(s is Finished),
{
}

} // verus!
