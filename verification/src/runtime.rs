//! The models that can be run, and what the runtime says of them.

use vstd::prelude::*;
use vstd::string::*;

use crate::agent::ToolFormat;
use crate::text::{joined, joined3, same_text, texts};

verus! {

/// How the weights of a model are quantized when it is loaded.
#[derive(Debug, Clone, Copy, PartialEq, Eq, Structural)]
pub enum Quantization {
    AutoIsq4,
    Unquantized,
}

impl Quantization {
    /// The bits per weight that loading quantizes to; `None` where it does not.
    pub fn isq_bits(self) -> (bits: Option<u8>)
        ensures
            bits == (match self {
                Quantization::AutoIsq4 => Some(4u8),
                Quantization::Unquantized => None,
            }),
    {
        match self {
            Quantization::AutoIsq4 => Some(4),
            Quantization::Unquantized => None,
        }
    }
}

/// How a model is loaded.
#[derive(Debug, Clone, Copy, PartialEq, Eq)]
pub enum LoadMode {
    AutoIsq,
    Gguf {
        quantized_model_id: &'static str,
        quantized_filenames: &'static [&'static str],
    },
}

/// How a model is loaded, by its contents.
#[verifier::ext_equal]
pub enum LoadModeView {
    AutoIsq,
    Gguf { quantized_model_id: Seq<char>, quantized_filenames: Seq<Seq<char>> },
}

/// The contents of a list of names.
pub open spec fn names_view(names: Seq<&'static str>) -> Seq<Seq<char>> {
    names.map_values(|name: &'static str| name@)
}

impl View for LoadMode {
    type V = LoadModeView;

    open spec fn view(&self) -> LoadModeView {
        match *self {
            LoadMode::AutoIsq => LoadModeView::AutoIsq,
            LoadMode::Gguf { quantized_model_id, quantized_filenames } => LoadModeView::Gguf {
                quantized_model_id: quantized_model_id@,
                quantized_filenames: names_view(quantized_filenames@),
            },
        }
    }
}

/// Where a model comes from and how it is loaded.
#[derive(Debug, Clone, Copy, PartialEq, Eq)]
pub struct ModelSource {
    repo_id: &'static str,
    quantization: Quantization,
    load_mode: LoadMode,
}

/// Where a model comes from, by its contents.
#[verifier::ext_equal]
pub struct SourceView {
    pub repo_id: Seq<char>,
    pub quantization: Quantization,
    pub load_mode: LoadModeView,
}

impl View for ModelSource {
    type V = SourceView;

    closed spec fn view(&self) -> SourceView {
        SourceView {
            repo_id: self.repo_id@,
            quantization: self.quantization,
            load_mode: self.load_mode@,
        }
    }
}

impl ModelSource {
    /// A repository whose weights are loaded as they are, or quantized on
    /// loading.
    pub fn new(repo_id: &'static str, quantization: Quantization) -> (source: Self)
        ensures
            source@ == (SourceView {
                repo_id: repo_id@,
                quantization,
                load_mode: LoadModeView::AutoIsq,
            }),
    {
        ModelSource { repo_id, quantization, load_mode: LoadMode::AutoIsq }
    }

    /// A repository of GGUF files, which are quantized already.
    pub fn gguf(
        repo_id: &'static str,
        quantized_model_id: &'static str,
        quantized_filenames: &'static [&'static str],
    ) -> (source: Self)
        ensures
            source@ == (SourceView {
                repo_id: repo_id@,
                quantization: Quantization::Unquantized,
                load_mode: LoadModeView::Gguf {
                    quantized_model_id: quantized_model_id@,
                    quantized_filenames: names_view(quantized_filenames@),
                },
            }),
    {
        ModelSource {
            repo_id,
            quantization: Quantization::Unquantized,
            load_mode: LoadMode::Gguf { quantized_model_id, quantized_filenames },
        }
    }

    /// The repository.
    pub fn repo_id(self) -> (repo_id: &'static str)
        ensures
            repo_id@ == self@.repo_id,
    {
        self.repo_id
    }

    /// The quantization.
    pub fn quantization(self) -> (quantization: Quantization)
        ensures
            quantization == self@.quantization,
    {
        self.quantization
    }

    /// The load mode.
    pub fn load_mode(self) -> (load_mode: LoadMode)
        ensures
            load_mode@ == self@.load_mode,
    {
        self.load_mode
    }
}

/// A model that can be run.
#[derive(Debug, PartialEq, Eq)]
pub enum Model {
    SmolLM2360MInstruct(ModelSource),
    SmolLM2(ModelSource),
    SmolLM3(ModelSource),
    Qwen35(ModelSource),
}

/// A model by its contents.
pub enum ModelView {
    SmolLM2360MInstruct(SourceView),
    SmolLM2(SourceView),
    SmolLM3(SourceView),
    Qwen35(SourceView),
}

impl ModelView {
    /// Where the model comes from.
    pub open spec fn source(self) -> SourceView {
        match self {
            ModelView::SmolLM2360MInstruct(source) => source,
            ModelView::SmolLM2(source) => source,
            ModelView::SmolLM3(source) => source,
            ModelView::Qwen35(source) => source,
        }
    }

    /// How the family of the model writes its tool calls: the SmolLM models
    /// between XML tags, the Qwen models in a JSON envelope.
    pub open spec fn tool_format(self) -> ToolFormat {
        match self {
            ModelView::Qwen35(_) => ToolFormat::JsonEnvelope,
            _ => ToolFormat::XmlJson,
        }
    }
}

impl View for Model {
    type V = ModelView;

    open spec fn view(&self) -> ModelView {
        match *self {
            Model::SmolLM2360MInstruct(source) => ModelView::SmolLM2360MInstruct(source@),
            Model::SmolLM2(source) => ModelView::SmolLM2(source@),
            Model::SmolLM3(source) => ModelView::SmolLM3(source@),
            Model::Qwen35(source) => ModelView::Qwen35(source@),
        }
    }
}

impl Clone for Model {
    fn clone(&self) -> (copy: Self)
        ensures
            copy@ == self@,
    {
        match self {
            Model::SmolLM2360MInstruct(source) => Model::SmolLM2360MInstruct(*source),
            Model::SmolLM2(source) => Model::SmolLM2(*source),
            Model::SmolLM3(source) => Model::SmolLM3(*source),
            Model::Qwen35(source) => Model::Qwen35(*source),
        }
    }
}

impl Model {
    /// Where the model comes from.
    fn source(&self) -> (source: ModelSource)
        ensures
            source@ == self@.source(),
    {
        match self {
            Model::SmolLM2360MInstruct(source) => *source,
            Model::SmolLM2(source) => *source,
            Model::SmolLM3(source) => *source,
            Model::Qwen35(source) => *source,
        }
    }

    /// The repository of the model.
    pub fn repo_id(&self) -> (repo_id: &'static str)
        ensures
            repo_id@ == self@.source().repo_id,
    {
        self.source().repo_id()
    }

    /// The quantization of the model.
    pub fn quantization(&self) -> (quantization: Quantization)
        ensures
            quantization == self@.source().quantization,
    {
        self.source().quantization()
    }

    /// The load mode of the model.
    pub fn load_mode(&self) -> (load_mode: LoadMode)
        ensures
            load_mode@ == self@.source().load_mode,
    {
        self.source().load_mode()
    }

    /// How the model writes its tool calls.
    pub fn tool_format(&self) -> (format: ToolFormat)
        ensures
            format == self@.tool_format(),
    {
        match self {
            Model::Qwen35(_) => ToolFormat::JsonEnvelope,
            _ => ToolFormat::XmlJson,
        }
    }
}

/// What has to be built to load a model.
#[derive(Debug, PartialEq, Eq)]
pub enum LoadPlan {
    /// The weights of a repository, quantized to so many bits or not at all.
    Repository { repo_id: String, isq_bits: Option<u8> },
    /// GGUF files.
    Gguf { model_id: String, filenames: Vec<String> },
}

/// What has to be built, by its contents.
#[verifier::ext_equal]
pub enum LoadPlanView {
    Repository { repo_id: Seq<char>, isq_bits: Option<u8> },
    Gguf { model_id: Seq<char>, filenames: Seq<Seq<char>> },
}

impl View for LoadPlan {
    type V = LoadPlanView;

    open spec fn view(&self) -> LoadPlanView {
        match *self {
            LoadPlan::Repository { repo_id, isq_bits } => LoadPlanView::Repository {
                repo_id: repo_id@,
                isq_bits,
            },
            LoadPlan::Gguf { model_id, filenames } => LoadPlanView::Gguf {
                model_id: model_id@,
                filenames: texts(filenames@),
            },
        }
    }
}

/// The plan that a source asks for.
pub open spec fn plan_for(source: SourceView) -> LoadPlanView {
    match source.load_mode {
        LoadModeView::AutoIsq => LoadPlanView::Repository {
            repo_id: source.repo_id,
            isq_bits: match source.quantization {
                Quantization::AutoIsq4 => Some(4u8),
                Quantization::Unquantized => None,
            },
        },
        LoadModeView::Gguf { quantized_model_id, quantized_filenames } => LoadPlanView::Gguf {
            model_id: quantized_model_id,
            filenames: quantized_filenames,
        },
    }
}

/// Decides what has to be built to load a model.
pub fn load_plan(model: &Model) -> (plan: LoadPlan)
    ensures
        plan@ == plan_for(model@.source()),
{
    match model.load_mode() {
        LoadMode::AutoIsq => LoadPlan::Repository {
            repo_id: model.repo_id().to_string(),
            isq_bits: model.quantization().isq_bits(),
        },
        LoadMode::Gguf { quantized_model_id, quantized_filenames } => {
            let mut filenames: Vec<String> = Vec::new();
            let mut i: usize = 0;
            while i < quantized_filenames.len()
                invariant
                    i <= quantized_filenames@.len(),
                    filenames@.len() == i,
                    forall|k: int|
                        0 <= k < i ==> #[trigger] filenames@[k]@ == quantized_filenames@[k]@,
                decreases quantized_filenames@.len() - i,
            {
                filenames.push(quantized_filenames[i].to_string());
                i = i + 1;
            }
            assert(texts(filenames@) =~= names_view(quantized_filenames@));
            LoadPlan::Gguf { model_id: quantized_model_id.to_string(), filenames }
        },
    }
}

/// The backend that a build runs models on: CUDA where it is built in, else
/// Metal where it is built in or the system is macOS, else the CPU.
pub fn runtime_backend(cuda: bool, metal: bool, macos: bool) -> (backend: &'static str)
    ensures
        backend@ == (if cuda {
            "cuda"@
        } else if metal || macos {
            "metal"@
        } else {
            "cpu"@
        }),
{
    if cuda {
        "cuda"
    } else if metal || macos {
        "metal"
    } else {
        "cpu"
    }
}

/// A model under the name that users give for it.
#[derive(Debug, PartialEq, Eq)]
pub struct RuntimeConfig {
    pub id: String,
    pub model: Model,
}

/// A named model by its contents.
pub struct ConfigView {
    pub id: Seq<char>,
    pub model: ModelView,
}

impl View for RuntimeConfig {
    type V = ConfigView;

    open spec fn view(&self) -> ConfigView {
        ConfigView { id: self.id@, model: self.model@ }
    }
}

impl Clone for RuntimeConfig {
    fn clone(&self) -> (copy: Self)
        ensures
            copy@ == self@,
    {
        RuntimeConfig { id: self.id.clone(), model: self.model.clone() }
    }
}

impl RuntimeConfig {
    /// A model under a name.
    pub fn new(id: &str, model: Model) -> (config: Self)
        ensures
            config@ == (ConfigView { id: id@, model: model@ }),
    {
        RuntimeConfig { id: id.to_string(), model }
    }
}

/// The named models that can be run, in the order in which they are listed.
#[derive(Debug)]
pub struct RuntimeRegistry {
    configs: Vec<RuntimeConfig>,
}

/// The contents of a list of named models.
pub open spec fn config_views(configs: Seq<RuntimeConfig>) -> Seq<ConfigView> {
    configs.map_values(|config: RuntimeConfig| config@)
}

/// The ids of named models.
pub open spec fn config_ids(configs: Seq<ConfigView>) -> Seq<Seq<char>> {
    configs.map_values(|config: ConfigView| config.id)
}

/// The first of the named models that has an id.
pub open spec fn config_named(configs: Seq<ConfigView>, id: Seq<char>) -> Option<ConfigView>
    decreases configs.len(),
{
    if configs.len() == 0 {
        None
    } else if configs[0].id == id {
        Some(configs[0])
    } else {
        config_named(configs.drop_first(), id)
    }
}

/// A named model of the SmolLM2 360M family.
pub open spec fn smollm2_360m(id: Seq<char>, quantization: Quantization) -> ConfigView {
    ConfigView {
        id,
        model: ModelView::SmolLM2360MInstruct(
            SourceView {
                repo_id: "HuggingFaceTB/SmolLM2-360M-Instruct"@,
                quantization,
                load_mode: LoadModeView::AutoIsq,
            },
        ),
    }
}

/// A named model of the SmolLM2 family.
pub open spec fn smollm2(
    id: Seq<char>,
    repo_id: Seq<char>,
    quantization: Quantization,
) -> ConfigView {
    ConfigView {
        id,
        model: ModelView::SmolLM2(
            SourceView { repo_id, quantization, load_mode: LoadModeView::AutoIsq },
        ),
    }
}

/// A named model of the SmolLM3 family.
pub open spec fn smollm3(
    id: Seq<char>,
    repo_id: Seq<char>,
    quantization: Quantization,
) -> ConfigView {
    ConfigView {
        id,
        model: ModelView::SmolLM3(
            SourceView { repo_id, quantization, load_mode: LoadModeView::AutoIsq },
        ),
    }
}

/// A named model of the Qwen family.
pub open spec fn qwen(
    id: Seq<char>,
    repo_id: Seq<char>,
    quantization: Quantization,
    load_mode: LoadModeView,
) -> ConfigView {
    ConfigView { id, model: ModelView::Qwen35(SourceView { repo_id, quantization, load_mode }) }
}

/// The models that can be run without further configuration.
pub open spec fn default_configs() -> Seq<ConfigView> {
    seq![
        smollm2_360m("smollm2-360m"@, Quantization::Unquantized),
        smollm2_360m("smollm2-360m-isq4"@, Quantization::AutoIsq4),
        smollm2_360m("smollm2-360m-q4"@, Quantization::AutoIsq4),
        smollm2("smollm2"@, "HuggingFaceTB/SmolLM2-1.7B-Instruct"@, Quantization::AutoIsq4),
        smollm2("smollm2-q4"@, "nakue/SmolLM2-1.7B-W4A16-instruct"@, Quantization::Unquantized),
        smollm2("smollm2-fp16"@, "HuggingFaceTB/SmolLM2-1.7B-Instruct"@, Quantization::Unquantized),
        smollm3("smollm3"@, "HuggingFaceTB/SmolLM3-3B"@, Quantization::AutoIsq4),
        smollm3("smollm3-q4"@, "AINovice2005/quantized-SmolLM3-3B"@, Quantization::Unquantized),
        smollm3("smollm3-fp16"@, "HuggingFaceTB/SmolLM3-3B"@, Quantization::Unquantized),
        qwen("qwen3.5"@, "Qwen/Qwen3-4B"@, Quantization::AutoIsq4, LoadModeView::AutoIsq),
        qwen(
            "qwen3.5-q2k"@,
            "unsloth/Qwen3-4B-GGUF"@,
            Quantization::Unquantized,
            LoadModeView::Gguf {
                quantized_model_id: "unsloth/Qwen3-4B-GGUF"@,
                quantized_filenames: seq!["Qwen3-4B-Q2_K.gguf"@],
            },
        ),
        qwen("qwen3.5-fp16"@, "Qwen/Qwen3-4B"@, Quantization::Unquantized, LoadModeView::AutoIsq),
    ]
}

impl View for RuntimeRegistry {
    type V = Seq<ConfigView>;

    closed spec fn view(&self) -> Seq<ConfigView> {
        config_views(self.configs@)
    }
}

impl Default for RuntimeRegistry {
    fn default() -> (registry: Self)
        ensures
            registry@ == Seq::<ConfigView>::empty(),
    {
        RuntimeRegistry::new(Vec::new())
    }
}

impl Clone for RuntimeRegistry {
    fn clone(&self) -> (copy: Self)
        ensures
            copy@ == self@,
    {
        let mut configs: Vec<RuntimeConfig> = Vec::new();
        let mut i: usize = 0;
        while i < self.configs.len()
            invariant
                i <= self.configs@.len(),
                configs@.len() == i,
                forall|k: int| 0 <= k < i ==> #[trigger] configs@[k]@ == self.configs@[k]@,
            decreases self.configs@.len() - i,
        {
            configs.push(self.configs[i].clone());
            i = i + 1;
        }
        assert(config_views(configs@) =~= config_views(self.configs@));
        RuntimeRegistry { configs }
    }
}

impl RuntimeRegistry {
    /// A registry of these models.
    pub fn new(configs: Vec<RuntimeConfig>) -> (registry: Self)
        ensures
            registry@ == config_views(configs@),
    {
        RuntimeRegistry { configs }
    }

    /// The models that can be run without further configuration.
    pub fn defaults() -> (registry: Self)
        ensures
            registry@ == default_configs(),
    {
        let filenames: &'static [&'static str] = &["Qwen3-4B-Q2_K.gguf"];
        assert(names_view(filenames@) =~= seq!["Qwen3-4B-Q2_K.gguf"@]);
        let registry = RuntimeRegistry::new(
            vec![
                RuntimeConfig::new(
                    "smollm2-360m",
                    Model::SmolLM2360MInstruct(
                        ModelSource::new(
                            "HuggingFaceTB/SmolLM2-360M-Instruct",
                            Quantization::Unquantized,
                        ),
                    ),
                ),
                RuntimeConfig::new(
                    "smollm2-360m-isq4",
                    Model::SmolLM2360MInstruct(
                        ModelSource::new(
                            "HuggingFaceTB/SmolLM2-360M-Instruct",
                            Quantization::AutoIsq4,
                        ),
                    ),
                ),
                RuntimeConfig::new(
                    "smollm2-360m-q4",
                    Model::SmolLM2360MInstruct(
                        ModelSource::new(
                            "HuggingFaceTB/SmolLM2-360M-Instruct",
                            Quantization::AutoIsq4,
                        ),
                    ),
                ),
                RuntimeConfig::new(
                    "smollm2",
                    Model::SmolLM2(
                        ModelSource::new(
                            "HuggingFaceTB/SmolLM2-1.7B-Instruct",
                            Quantization::AutoIsq4,
                        ),
                    ),
                ),
                RuntimeConfig::new(
                    "smollm2-q4",
                    Model::SmolLM2(
                        ModelSource::new(
                            "nakue/SmolLM2-1.7B-W4A16-instruct",
                            Quantization::Unquantized,
                        ),
                    ),
                ),
                RuntimeConfig::new(
                    "smollm2-fp16",
                    Model::SmolLM2(
                        ModelSource::new(
                            "HuggingFaceTB/SmolLM2-1.7B-Instruct",
                            Quantization::Unquantized,
                        ),
                    ),
                ),
                RuntimeConfig::new(
                    "smollm3",
                    Model::SmolLM3(
                        ModelSource::new("HuggingFaceTB/SmolLM3-3B", Quantization::AutoIsq4),
                    ),
                ),
                RuntimeConfig::new(
                    "smollm3-q4",
                    Model::SmolLM3(
                        ModelSource::new(
                            "AINovice2005/quantized-SmolLM3-3B",
                            Quantization::Unquantized,
                        ),
                    ),
                ),
                RuntimeConfig::new(
                    "smollm3-fp16",
                    Model::SmolLM3(
                        ModelSource::new("HuggingFaceTB/SmolLM3-3B", Quantization::Unquantized),
                    ),
                ),
                RuntimeConfig::new(
                    "qwen3.5",
                    Model::Qwen35(ModelSource::new("Qwen/Qwen3-4B", Quantization::AutoIsq4)),
                ),
                RuntimeConfig::new(
                    "qwen3.5-q2k",
                    Model::Qwen35(
                        ModelSource::gguf(
                            "unsloth/Qwen3-4B-GGUF",
                            "unsloth/Qwen3-4B-GGUF",
                            filenames,
                        ),
                    ),
                ),
                RuntimeConfig::new(
                    "qwen3.5-fp16",
                    Model::Qwen35(ModelSource::new("Qwen/Qwen3-4B", Quantization::Unquantized)),
                ),
            ],
        );
        assert(registry@ =~= default_configs());
        registry
    }

    /// The models, in their order.
    pub fn list(&self) -> (configs: &[RuntimeConfig])
        ensures
            config_views(configs@) == self@,
    {
        self.configs.as_slice()
    }

    /// Finds the model with an id.
    pub fn get(&self, id: &str) -> (config: Option<&RuntimeConfig>)
        ensures
            (match config {
                Some(config) => Some(config@),
                None => None,
            }) == config_named(self@, id@),
    {
        let ghost all = self@;
        let mut at: usize = 0;
        assert(all.skip(0) =~= all);
        while at < self.configs.len()
            invariant
                at <= self.configs@.len(),
                all == config_views(self.configs@),
                config_named(all, id@) == config_named(all.skip(at as int), id@),
            decreases self.configs@.len() - at,
        {
            assert(all.skip(at as int)[0] == self.configs@[at as int]@);
            if same_text(self.configs[at].id.as_str(), id) {
                return Some(&self.configs[at]);
            }
            assert(all.skip(at as int).drop_first() =~= all.skip(at + 1));
            at = at + 1;
        }
        None
    }

    /// The ids of the models, in their order.
    pub fn ids(&self) -> (ids: Vec<String>)
        ensures
            texts(ids@) == config_ids(self@),
    {
        let mut ids: Vec<String> = Vec::new();
        let mut i: usize = 0;
        while i < self.configs.len()
            invariant
                i <= self.configs@.len(),
                ids@.len() == i,
                forall|k: int| 0 <= k < i ==> #[trigger] ids@[k]@ == self.configs@[k].id@,
            decreases self.configs@.len() - i,
        {
            ids.push(self.configs[i].id.clone());
            i = i + 1;
        }
        assert(texts(ids@) =~= config_ids(self@));
        ids
    }
}

/// The named model that a registry finds has the id that was asked for and is
/// one of the registry; none is found only where none has the id.
pub proof fn found_config_has_the_id(configs: Seq<ConfigView>, id: Seq<char>)
    ensures
        match config_named(configs, id) {
            Some(config) => config.id == id && configs.contains(config),
            None => !config_ids(configs).contains(id),
        },
    decreases configs.len(),
{
    if configs.len() > 0 && configs[0].id != id {
        found_config_has_the_id(configs.drop_first(), id);
        match config_named(configs.drop_first(), id) {
            Some(config) => {
                let i = choose|i: int|
                    0 <= i < configs.drop_first().len() && configs.drop_first()[i] == config;
                assert(configs[i + 1] == config);
            },
            None => {
                assert forall|i: int| 0 <= i < configs.len() implies config_ids(configs)[i]
                    != id by {
                    if i > 0 {
                        assert(config_ids(configs.drop_first())[i - 1] == config_ids(configs)[i]);
                    }
                }
            },
        }
    } else if configs.len() > 0 {
        assert(configs[0] == config_named(configs, id).unwrap());
    }
}

/// What the runtime is doing for a request.
#[derive(Debug, PartialEq, Eq)]
pub enum RuntimeStatus {
    Queued { config_id: String },
    Loading { config_id: String, repo_id: String },
    Generating { config_id: String },
}

/// What the runtime is doing, by its contents.
pub enum StatusView {
    Queued { config_id: Seq<char> },
    Loading { config_id: Seq<char>, repo_id: Seq<char> },
    Generating { config_id: Seq<char> },
}

impl View for RuntimeStatus {
    type V = StatusView;

    open spec fn view(&self) -> StatusView {
        match *self {
            RuntimeStatus::Queued { config_id } => StatusView::Queued { config_id: config_id@ },
            RuntimeStatus::Loading { config_id, repo_id } => StatusView::Loading {
                config_id: config_id@,
                repo_id: repo_id@,
            },
            RuntimeStatus::Generating { config_id } => StatusView::Generating {
                config_id: config_id@,
            },
        }
    }
}

impl Clone for RuntimeStatus {
    fn clone(&self) -> (copy: Self)
        ensures
            copy@ == self@,
    {
        match self {
            RuntimeStatus::Queued { config_id } => RuntimeStatus::Queued {
                config_id: config_id.clone(),
            },
            RuntimeStatus::Loading { config_id, repo_id } => RuntimeStatus::Loading {
                config_id: config_id.clone(),
                repo_id: repo_id.clone(),
            },
            RuntimeStatus::Generating { config_id } => RuntimeStatus::Generating {
                config_id: config_id.clone(),
            },
        }
    }
}

impl RuntimeStatus {
    /// The status in words.
    pub fn message(&self) -> (text: String)
        ensures
            text@ == (match self@ {
                StatusView::Queued { config_id } => "queued for "@ + config_id,
                StatusView::Loading { config_id, repo_id } => "loading model "@ + config_id
                    + " from "@ + repo_id,
                StatusView::Generating { config_id } => "generating with "@ + config_id,
            }),
    {
        match self {
            RuntimeStatus::Queued { config_id } => joined("queued for ", config_id.as_str()),
            RuntimeStatus::Loading { config_id, repo_id } => joined(
                joined3("loading model ", config_id.as_str(), " from ").as_str(),
                repo_id.as_str(),
            ),
            RuntimeStatus::Generating { config_id } => joined(
                "generating with ",
                config_id.as_str(),
            ),
        }
    }
}

/// What can go wrong in the runtime.
#[derive(Debug, PartialEq, Eq)]
pub enum RuntimeError {
    UnknownConfig(String),
    ModelBuild(String),
    Inference(String),
    ChannelClosed,
    ConnectionClosed,
}

/// What went wrong, by its contents.
pub enum ErrorView {
    UnknownConfig(Seq<char>),
    ModelBuild(Seq<char>),
    Inference(Seq<char>),
    ChannelClosed,
    ConnectionClosed,
}

impl View for RuntimeError {
    type V = ErrorView;

    open spec fn view(&self) -> ErrorView {
        match *self {
            RuntimeError::UnknownConfig(id) => ErrorView::UnknownConfig(id@),
            RuntimeError::ModelBuild(message) => ErrorView::ModelBuild(message@),
            RuntimeError::Inference(message) => ErrorView::Inference(message@),
            RuntimeError::ChannelClosed => ErrorView::ChannelClosed,
            RuntimeError::ConnectionClosed => ErrorView::ConnectionClosed,
        }
    }
}

impl Clone for RuntimeError {
    fn clone(&self) -> (copy: Self)
        ensures
            copy@ == self@,
    {
        match self {
            RuntimeError::UnknownConfig(id) => RuntimeError::UnknownConfig(id.clone()),
            RuntimeError::ModelBuild(message) => RuntimeError::ModelBuild(message.clone()),
            RuntimeError::Inference(message) => RuntimeError::Inference(message.clone()),
            RuntimeError::ChannelClosed => RuntimeError::ChannelClosed,
            RuntimeError::ConnectionClosed => RuntimeError::ConnectionClosed,
        }
    }
}

impl ErrorView {
    /// The error in words.
    pub open spec fn message(self) -> Seq<char> {
        match self {
            ErrorView::UnknownConfig(id) => "unknown runtime config: "@ + id,
            ErrorView::ModelBuild(message) => "failed to build model: "@ + message,
            ErrorView::Inference(message) => "inference failed: "@ + message,
            ErrorView::ChannelClosed => "runtime request channel closed"@,
            ErrorView::ConnectionClosed => "runtime connection closed"@,
        }
    }
}

impl RuntimeError {
    /// The error in words.
    pub fn message(&self) -> (text: String)
        ensures
            text@ == self@.message(),
    {
        match self {
            RuntimeError::UnknownConfig(id) => joined("unknown runtime config: ", id.as_str()),
            RuntimeError::ModelBuild(message) => joined(
                "failed to build model: ",
                message.as_str(),
            ),
            RuntimeError::Inference(message) => joined("inference failed: ", message.as_str()),
            RuntimeError::ChannelClosed => "runtime request channel closed".to_string(),
            RuntimeError::ConnectionClosed => "runtime connection closed".to_string(),
        }
    }
}

/// What a runtime is to be built of.
#[derive(Debug)]
pub struct RuntimeBuilder {
    registry: RuntimeRegistry,
    worker_count: Option<usize>,
}

impl Default for RuntimeBuilder {
    fn default() -> (builder: Self)
        ensures
            builder.configs() == default_configs(),
            builder.requested_workers() is None,
    {
        RuntimeBuilder::new()
    }
}

impl RuntimeBuilder {
    /// The models of the runtime.
    pub closed spec fn configs(&self) -> Seq<ConfigView> {
        self.registry@
    }

    /// The number of workers that was asked for.
    pub closed spec fn requested_workers(&self) -> Option<usize> {
        self.worker_count
    }

    /// A runtime of the default models.
    pub fn new() -> (builder: Self)
        ensures
            builder.configs() == default_configs(),
            builder.requested_workers() is None,
    {
        RuntimeBuilder { registry: RuntimeRegistry::defaults(), worker_count: None }
    }

    /// The same with other models.
    pub fn with_registry(self, registry: RuntimeRegistry) -> (builder: Self)
        ensures
            builder.configs() == registry@,
            builder.requested_workers() == self.requested_workers(),
    {
        RuntimeBuilder { registry, worker_count: self.worker_count }
    }

    /// The same with one model more.
    pub fn with_config(self, config: RuntimeConfig) -> (builder: Self)
        ensures
            builder.configs() == self.configs().push(config@),
            builder.requested_workers() == self.requested_workers(),
    {
        let mut registry = self.registry;
        let ghost before = registry@;
        registry.configs.push(config);
        assert(registry@ =~= before.push(config@));
        RuntimeBuilder { registry, worker_count: self.worker_count }
    }

    /// The same with a number of workers, of which there is at least one.
    pub fn with_worker_count(self, worker_count: usize) -> (builder: Self)
        ensures
            builder.configs() == self.configs(),
            builder.requested_workers() == Some(
                if worker_count == 0 {
                    1
                } else {
                    worker_count
                },
            ),
    {
        let count: usize = if worker_count == 0 {
            1
        } else {
            worker_count
        };
        RuntimeBuilder { registry: self.registry, worker_count: Some(count) }
    }

    /// What the runtime is made of: its models, and those of them that get a
    /// worker.
    pub fn build(self) -> (plan: (RuntimeRegistry, Vec<String>))
        ensures
            plan.0@ == self.configs(),
            texts(plan.1@) == worker_configs(
                self.configs(),
                self.requested_workers(),
            ),
    {
        let workers = build_worker_layout(&self.registry, self.worker_count);
        (self.registry, workers)
    }
}

/// How many workers a runtime has: as many as were asked for, or one for each
/// model, but at least one and no more than there are models.
pub open spec fn worker_total(models: nat, requested: Option<usize>) -> nat {
    let wanted: nat = match requested {
        Some(count) => if count == 0 {
            1
        } else {
            count as nat
        },
        None => models,
    };
    if wanted < models {
        wanted
    } else {
        models
    }
}

/// The ids of the models that get a worker: the first ones of the registry.
pub open spec fn worker_configs(configs: Seq<ConfigView>, requested: Option<usize>) -> Seq<
    Seq<char>,
> {
    config_ids(configs).take(worker_total(configs.len(), requested) as int)
}

/// Decides which models get a worker.
pub fn build_worker_layout(registry: &RuntimeRegistry, requested: Option<usize>) -> (workers: Vec<String>)
    ensures
        texts(workers@) == worker_configs(registry@, requested),
{
    let models: usize = registry.configs.len();
    let wanted: usize = match requested {
        Some(count) => if count == 0 {
            1
        } else {
            count
        },
        None => models,
    };
    let total: usize = if wanted < models {
        wanted
    } else {
        models
    };
    let mut workers: Vec<String> = Vec::new();
    let mut i: usize = 0;
    while i < total
        invariant
            i <= total <= registry.configs@.len(),
            workers@.len() == i,
            forall|k: int| 0 <= k < i ==> #[trigger] workers@[k]@ == registry.configs@[k].id@,
        decreases total - i,
    {
        workers.push(registry.configs[i].id.clone());
        i = i + 1;
    }
    assert(texts(workers@) =~= worker_configs(registry@, requested));
    workers
}

/// The ids of the default models are all different.
pub proof fn default_ids_are_distinct()
    ensures
        config_ids(default_configs()).no_duplicates(),
{
    reveal_strlit("smollm2-360m");
    reveal_strlit("smollm2-360m-isq4");
    reveal_strlit("smollm2-360m-q4");
    reveal_strlit("smollm2");
    reveal_strlit("smollm2-q4");
    reveal_strlit("smollm2-fp16");
    reveal_strlit("smollm3");
    reveal_strlit("smollm3-q4");
    reveal_strlit("smollm3-fp16");
    reveal_strlit("qwen3.5");
    reveal_strlit("qwen3.5-q2k");
    reveal_strlit("qwen3.5-fp16");
    let ids = config_ids(default_configs());
    // Ids of one length differ in one of these places.
    assert forall|i: int, j: int| 0 <= i < j < ids.len() implies ids[i] != ids[j] by {
        assert(ids[i].len() != ids[j].len() || ids[i][0] != ids[j][0] || ids[i][6] != ids[j][6]
            || ids[i][8] != ids[j][8]);
    }
}

/// By default every model gets a worker.
pub proof fn every_model_gets_a_worker_by_default(configs: Seq<ConfigView>)
    ensures
        worker_configs(configs, None) == config_ids(configs),
{
    assert(config_ids(configs).take(configs.len() as int) =~= config_ids(configs));
}

/// A model from a repository is built from that repository, with four bits where it is to be
/// quantized and as it is where not; one in GGUF files is built from all its files, in their
/// order.
pub proof fn plan_builds_what_the_source_names(source: SourceView)
    ensures
        source.load_mode is AutoIsq ==> (plan_for(source) matches LoadPlanView::Repository {
            repo_id,
            isq_bits,
        } && repo_id == source.repo_id && isq_bits == if source.quantization
            == Quantization::AutoIsq4 {
            Some(4u8)
        } else {
            None
        }),
        source.load_mode matches LoadModeView::Gguf { quantized_model_id, quantized_filenames }
            ==> (plan_for(source) matches LoadPlanView::Gguf { model_id, filenames } && model_id
            == quantized_model_id && filenames == quantized_filenames),
{
}

/// The first models of a registry get a worker each, in their order: as many as were asked for,
/// but at least one, and never more than there are models.
pub proof fn first_models_get_the_workers(configs: Seq<ConfigView>, requested: usize)
    requires
        configs.len() > 0,
    ensures
        ({
            let workers = worker_configs(configs, Some(requested));
            &&& 1 <= workers.len() <= configs.len()
            &&& 1 <= requested <= configs.len() ==> workers.len() == requested
            &&& requested > configs.len() ==> workers.len() == configs.len()
            &&& requested == 0 ==> workers.len() == 1
            &&& forall|i: int|
                0 <= i < workers.len() ==> #[trigger] workers[i] == configs[i].id
        }),
{
    let workers = worker_configs(configs, Some(requested));
    assert forall|i: int| 0 <= i < workers.len() implies #[trigger] workers[i]
        == configs[i].id by {
        assert(workers[i] == config_ids(configs)[i]);
    }
}

/// The default models of one name are of the family that the name begins with, and the Qwen
/// models alone write their calls in a JSON envelope.
pub proof fn default_models_write_calls_as_their_family_does(k: int)
    requires
        0 <= k < default_configs().len(),
    ensures
        ({
            let config = default_configs()[k];
            &&& config.id.len() > 0
            &&& config.model.tool_format() == if config.id[0] == 'q' {
                ToolFormat::JsonEnvelope
            } else {
                ToolFormat::XmlJson
            }
        }),
{
    reveal_strlit("smollm2-360m");
    reveal_strlit("smollm2-360m-isq4");
    reveal_strlit("smollm2-360m-q4");
    reveal_strlit("smollm2");
    reveal_strlit("smollm2-q4");
    reveal_strlit("smollm2-fp16");
    reveal_strlit("smollm3");
    reveal_strlit("smollm3-q4");
    reveal_strlit("smollm3-fp16");
    reveal_strlit("qwen3.5");
    reveal_strlit("qwen3.5-q2k");
    reveal_strlit("qwen3.5-fp16");
}

/// An error says what went wrong, and then what it is about; errors of different sorts do not read
/// the same.
pub proof fn errors_say_what_went_wrong(about: Seq<char>)
    ensures
        ErrorView::UnknownConfig(about).message().skip(24) == about,
        ErrorView::ModelBuild(about).message().skip(23) == about,
        ErrorView::Inference(about).message().skip(18) == about,
        ErrorView::UnknownConfig(about).message().take(22) == "unknown runtime config"@,
        ErrorView::ModelBuild(about).message().take(15) == "failed to build"@,
        ErrorView::Inference(about).message().take(16) == "inference failed"@,
        ErrorView::ChannelClosed.message() != ErrorView::ConnectionClosed.message(),
{
    reveal_strlit("unknown runtime config: ");
    reveal_strlit("failed to build model: ");
    reveal_strlit("inference failed: ");
    reveal_strlit("unknown runtime config");
    reveal_strlit("failed to build");
    reveal_strlit("inference failed");
    reveal_strlit("runtime request channel closed");
    reveal_strlit("runtime connection closed");
    assert(ErrorView::UnknownConfig(about).message().skip(24) =~= about);
    assert(ErrorView::ModelBuild(about).message().skip(23) =~= about);
    assert(ErrorView::Inference(about).message().skip(18) =~= about);
    assert(ErrorView::UnknownConfig(about).message().take(22) =~= "unknown runtime config"@);
    assert(ErrorView::ModelBuild(about).message().take(15) =~= "failed to build"@);
    assert(ErrorView::Inference(about).message().take(16) =~= "inference failed"@);
    assert(ErrorView::ChannelClosed.message().len() != ErrorView::ConnectionClosed.message().len());
}

} // verus!
