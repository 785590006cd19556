use crate::value::{folded, lemma_fold_step, merge, merged, Tree, Value};
use vstd::prelude::*;
use vstd::string::StringExecFns;

verus! {

/// The stage of a run at which it failed.
#[derive(Clone, Copy, Debug, PartialEq, Eq, Structural)]
pub enum Stage {
    OpenSource,
    ParseSource,
    LoadTemplateFile,
    LoadTemplateStdin,
    BuildContext,
    Render,
    OpenOutput,
    WriteOutput,
    WriteStdout,
}

/// What went wrong in the outside work that an action asked for.
#[derive(Clone, Copy, Debug, PartialEq, Eq, Structural)]
pub enum Fault {
    Open,
    Parse,
    Read,
    Context,
    Render,
    Write,
}

/// The single terminal error of a run: the stage, and the chain of messages,
/// outermost first and most specific cause last.
#[derive(Debug)]
pub struct Failure {
    pub stage: Stage,
    pub messages: Vec<String>,
}

/// What a run is asked to do.
pub struct Config {
    /// The variable documents, in the order in which they are merged.
    pub sources: Vec<String>,
    /// The template file; without one the template is read from standard input.
    pub template: Option<String>,
    /// The output file; without one the result goes to standard output.
    pub output: Option<String>,
    /// Whether interpolated values are escaped.
    pub escape: bool,
}

/// Where a run stands: what its last action asked for.
#[derive(Clone, Copy, Debug, PartialEq, Eq, Structural)]
pub enum Phase {
    Loading,
    Reading,
    Rendering,
    Writing,
    Finished,
}

/// The outcome of the outside work that the last action asked for.
pub enum Event {
    /// The document asked for, parsed.
    Loaded(Value),
    /// The template text, or the rendered text.
    Text(String),
    /// The output was written.
    Written,
    /// The work failed; the causes run from the outermost to the most specific.
    Failed(Fault, Vec<String>),
}

/// The next piece of outside work of a run.
pub enum Action {
    /// Open and parse the document at this path.
    Load(String),
    /// Read the template from this file, or from standard input.
    ReadTemplate(Option<String>),
    /// Render the template; without variables the context is empty.
    Render { variables: Option<Value>, template: String, escape: bool },
    /// Write the text to this file (created or truncated), or to standard output.
    Write { path: Option<String>, text: String },
    /// The run succeeded.
    Finish,
    /// The run failed; nothing more is done.
    Abort(Failure),
}

/// The decisions of one run: load the documents in order and merge them, read
/// the template, render, write; the first failure ends the run.
pub struct Pipeline {
    pub config: Config,
    /// The document being loaded, while loading.
    pub next: usize,
    /// The documents loaded so far, merged; handed over when rendering.
    pub variables: Value,
    /// The trees of the documents loaded so far, in order.
    pub loaded: Ghost<Seq<Tree>>,
    pub phase: Phase,
}

/// The text of an optional string.
pub open spec fn text_of(o: Option<String>) -> Option<Seq<char>> {
    match o {
        Some(s) => Some(s@),
        None => None,
    }
}

/// The texts of a list of strings.
pub open spec fn texts(v: Seq<String>) -> Seq<Seq<char>> {
    v.map_values(|s: String| s@)
}

/// The stage that a fault in a phase stands for.
pub open spec fn stage_of(phase: Phase, fault: Fault, template_file: bool, output_file: bool) -> Stage {
    match phase {
        Phase::Loading => if fault == Fault::Open {
            Stage::OpenSource
        } else {
            Stage::ParseSource
        },
        Phase::Reading => if template_file {
            Stage::LoadTemplateFile
        } else {
            Stage::LoadTemplateStdin
        },
        Phase::Rendering => if fault == Fault::Context {
            Stage::BuildContext
        } else {
            Stage::Render
        },
        _ => if !output_file {
            Stage::WriteStdout
        } else if fault == Fault::Open {
            Stage::OpenOutput
        } else {
            Stage::WriteOutput
        },
    }
}

/// The description that a failure at a stage puts above its causes; `path` is
/// the file that the failing stage works on.
pub open spec fn headline(stage: Stage, path: Seq<char>) -> Seq<Seq<char>> {
    match stage {
        Stage::OpenSource | Stage::OpenOutput => seq!["Failed to open "@ + path],
        Stage::ParseSource => seq!["Failed to parse "@ + path],
        Stage::WriteOutput => seq!["Failed to write result to "@ + path],
        Stage::LoadTemplateFile => seq!["Failed to load template from file"@],
        Stage::LoadTemplateStdin => seq!["Failed to load template from stdin"@],
        Stage::BuildContext => seq!["Failed to create template context"@],
        Stage::Render => seq!["Failed to render template"@],
        Stage::WriteStdout => seq!["Failed to write result to stdout"@],
    }
}

/// A failure at `stage`: its description, then the causes.
pub fn failure(stage: Stage, path: &String, causes: Vec<String>) -> (f: Failure)
    ensures
        f.stage == stage,
        texts(f.messages@) == headline(stage, path@) + texts(causes@),
{
    let mut messages: Vec<String> = Vec::new();
    match stage {
        Stage::OpenSource | Stage::OpenOutput => {
            messages.push(String::from_str("Failed to open ").concat(path.as_str()));
        },
        Stage::LoadTemplateFile => {
            messages.push(String::from_str("Failed to load template from file"));
        },
        Stage::LoadTemplateStdin => {
            messages.push(String::from_str("Failed to load template from stdin"));
        },
        Stage::BuildContext => {
            messages.push(String::from_str("Failed to create template context"));
        },
        Stage::Render => {
            messages.push(String::from_str("Failed to render template"));
        },
        Stage::WriteStdout => {
            messages.push(String::from_str("Failed to write result to stdout"));
        },
        Stage::ParseSource => {
            messages.push(String::from_str("Failed to parse ").concat(path.as_str()));
        },
        Stage::WriteOutput => {
            messages.push(String::from_str("Failed to write result to ").concat(path.as_str()));
        },
    }
    let ghost lead = messages@;
    let mut rest = causes;
    messages.append(&mut rest);
    proof {
        assert(texts(lead) =~= headline(stage, path@));
        assert(texts(messages@) =~= texts(lead) + texts(causes@));
    }
    Failure { stage, messages }
}

fn copy_text(o: &Option<String>) -> (r: Option<String>)
    ensures
        text_of(r) == text_of(*o),
{
    match o {
        Some(s) => Some(s.clone()),
        None => None,
    }
}

impl Pipeline {
    /// While loading, `next` names a document and all before it are loaded;
    /// until rendering, the variables are the loaded documents merged in order.
    pub open spec fn wf(&self) -> bool {
        &&& self.phase == Phase::Loading ==> {
            &&& self.next < self.config.sources.len()
            &&& self.loaded@.len() == self.next
        }
        &&& self.phase == Phase::Reading ==> self.loaded@.len() == self.config.sources.len()
        &&& (self.phase == Phase::Loading || self.phase == Phase::Reading) ==> self.variables@
            == folded(self.loaded@)
        &&& self.variables.wf()
    }

    /// A run that has finished takes no further event: after a failure nothing
    /// is loaded, merged, rendered or written.
    pub proof fn lemma_finished_takes_nothing(&self, event: Event)
        requires
            self.phase == Phase::Finished,
        ensures
            !self.accepts(event),
    {
    }

    /// Whether `event` can answer the last action.
    pub open spec fn accepts(&self, event: Event) -> bool {
        match event {
            Event::Loaded(v) => self.phase == Phase::Loading && v.wf(),
            Event::Text(_) => self.phase == Phase::Reading || self.phase == Phase::Rendering,
            Event::Written => self.phase == Phase::Writing,
            Event::Failed(_, _) => self.phase != Phase::Finished,
        }
    }

    /// The file that a failure in the current phase refers to: the document being
    /// loaded, or else the output file.
    pub open spec fn failing_path(&self) -> Seq<char> {
        if self.phase == Phase::Loading {
            self.config.sources[self.next as int]@
        } else {
            match self.config.output {
                Some(p) => p@,
                None => Seq::empty(),
            }
        }
    }

    /// A run of `config`, and its first action: load the first document, or
    /// without documents read the template.
    pub fn start(config: Config) -> (r: (Pipeline, Action))
        ensures
            r.0.wf(),
            r.0.config == config,
            r.0.variables@ == Tree::Null,
            r.0.loaded@ == Seq::<Tree>::empty(),
            config.sources.len() > 0 ==> r.0.phase == Phase::Loading && r.0.next == 0 && r.1 is Load
                && r.1->Load_0@ == config.sources[0]@,
            config.sources.len() == 0 ==> r.0.phase == Phase::Reading && r.1 is ReadTemplate
                && text_of(r.1->ReadTemplate_0) == text_of(config.template),
    {
        if config.sources.len() > 0 {
            let first = config.sources[0].clone();
            (
                Pipeline {
                    config,
                    next: 0,
                    variables: Value::Null,
                    loaded: Ghost(Seq::empty()),
                    phase: Phase::Loading,
                },
                Action::Load(first),
            )
        } else {
            let template = copy_text(&config.template);
            (
                Pipeline {
                    config,
                    next: 0,
                    variables: Value::Null,
                    loaded: Ghost(Seq::empty()),
                    phase: Phase::Reading,
                },
                Action::ReadTemplate(template),
            )
        }
    }

    /// Whether `event` can answer the last action.
    pub fn can_take(&self, event: &Event) -> (r: bool)
        ensures
            r == self.accepts(*event),
    {
        match event {
            Event::Loaded(v) => self.phase == Phase::Loading && v.is_well_formed(),
            Event::Text(_) => self.phase == Phase::Reading || self.phase == Phase::Rendering,
            Event::Written => self.phase == Phase::Writing,
            Event::Failed(_, _) => self.phase != Phase::Finished,
        }
    }

    /// Takes the outcome of the last action and decides the next one.
    pub fn step(&mut self, event: Event) -> (action: Action)
        requires
            old(self).wf(),
            old(self).accepts(event),
        ensures
            final(self).wf(),
            final(self).config == old(self).config,
            match event {
                Event::Loaded(doc) => {
                    &&& final(self).variables@ == merged(old(self).variables@, doc@)
                    &&& final(self).loaded@ == old(self).loaded@.push(doc@)
                    &&& final(self).variables@ == folded(final(self).loaded@)
                    &&& old(self).next + 1 < old(self).config.sources.len() ==> {
                        &&& final(self).phase == Phase::Loading
                        &&& final(self).next == old(self).next + 1
                        &&& action is Load
                        &&& action->Load_0@ == old(self).config.sources[old(self).next + 1]@
                    }
                    &&& old(self).next + 1 >= old(self).config.sources.len() ==> {
                        &&& final(self).phase == Phase::Reading
                        &&& action is ReadTemplate
                        &&& text_of(action->ReadTemplate_0) == text_of(old(self).config.template)
                    }
                },
                Event::Text(text) => {
                    &&& old(self).phase == Phase::Reading ==> {
                        &&& final(self).phase == Phase::Rendering
                        &&& action is Render
                        &&& action->Render_template@ == text@
                        &&& action->Render_escape == old(self).config.escape
                        &&& match action->Render_variables {
                            Some(v) => v@ != Tree::Null && v@ == folded(old(self).loaded@),
                            None => folded(old(self).loaded@) == Tree::Null,
                        }
                    }
                    &&& old(self).phase == Phase::Rendering ==> {
                        &&& final(self).phase == Phase::Writing
                        &&& action is Write
                        &&& action->Write_text@ == text@
                        &&& text_of(action->Write_path) == text_of(old(self).config.output)
                    }
                },
                Event::Written => final(self).phase == Phase::Finished && action is Finish,
                Event::Failed(fault, causes) => {
                    let stage = stage_of(
                        old(self).phase,
                        fault,
                        old(self).config.template is Some,
                        old(self).config.output is Some,
                    );
                    &&& final(self).phase == Phase::Finished
                    &&& final(self).variables == old(self).variables
                    &&& final(self).loaded == old(self).loaded
                    &&& old(self).phase == Phase::Loading ==> {
                        &&& final(self).loaded@.len() == old(self).next
                        &&& final(self).variables@ == folded(final(self).loaded@)
                    }
                    &&& action is Abort
                    &&& action->Abort_0.stage == stage
                    &&& texts(action->Abort_0.messages@) == headline(stage, old(self).failing_path())
                        + texts(causes@)
                },
            },
    {
        match event {
            Event::Loaded(doc) => {
                proof {
                    lemma_fold_step(self.loaded@, doc@);
                }
                merge(&mut self.variables, &doc);
                self.loaded = Ghost(self.loaded@.push(doc@));
                if self.next + 1 < self.config.sources.len() {
                    self.next = self.next + 1;
                    Action::Load(self.config.sources[self.next].clone())
                } else {
                    self.phase = Phase::Reading;
                    Action::ReadTemplate(copy_text(&self.config.template))
                }
            },
            Event::Text(text) => {
                if self.phase == Phase::Reading {
                    self.phase = Phase::Rendering;
                    let mut variables = Value::Null;
                    std::mem::swap(&mut variables, &mut self.variables);
                    let variables = match variables {
                        Value::Null => None,
                        other => Some(other),
                    };
                    Action::Render { variables, template: text, escape: self.config.escape }
                } else {
                    self.phase = Phase::Writing;
                    Action::Write { path: copy_text(&self.config.output), text }
                }
            },
            Event::Written => {
                self.phase = Phase::Finished;
                Action::Finish
            },
            Event::Failed(fault, causes) => {
                let stage = match self.phase {
                    Phase::Loading => if fault == Fault::Open {
                        Stage::OpenSource
                    } else {
                        Stage::ParseSource
                    },
                    Phase::Reading => if self.config.template.is_some() {
                        Stage::LoadTemplateFile
                    } else {
                        Stage::LoadTemplateStdin
                    },
                    Phase::Rendering => if fault == Fault::Context {
                        Stage::BuildContext
                    } else {
                        Stage::Render
                    },
                    _ => if self.config.output.is_none() {
                        Stage::WriteStdout
                    } else if fault == Fault::Open {
                        Stage::OpenOutput
                    } else {
                        Stage::WriteOutput
                    },
                };
                let f = if self.phase == Phase::Loading {
                    failure(stage, &self.config.sources[self.next], causes)
                } else {
                    match &self.config.output {
                        Some(p) => failure(stage, p, causes),
                        None => failure(stage, &String::new(), causes),
                    }
                };
                self.phase = Phase::Finished;
                Action::Abort(f)
            },
        }
    }
}

} // verus!
