//! Starting the proxy: the order of the steps, and what each outcome leads
//! to. The steps themselves (files, processes, requests) are run by the
//! caller, which reports each outcome back.
use crate::config::{
    bind_error, has_routable_mapping, has_routable_mapping_spec, is_loopback_bind, loopback_bind,
    AppConfig, Settings,
};
use crate::text::{decimal, decimal_spec, owned};
use vstd::prelude::*;
use vstd::string::*;

verus! {

/// The next thing to do while starting the proxy.
#[derive(Debug, PartialEq, Eq)]
pub enum StartStep {
    /// Write the model catalog.
    WriteCatalog,
    /// Write the app-server wrapper (only when Codex is restarted).
    PrepareWrapper,
    /// Ask Codex to quit, so that it flushes its state and cannot race the injection.
    QuitCodex,
    /// Route the Codex configuration through the proxy.
    Inject,
    /// Check that the injection is still in place.
    VerifyInjection,
    /// Start the sidecar.
    SpawnSidecar,
    /// Put the Codex configuration back, then fail with this error.
    RestoreAfterFailure(String),
    /// Start Codex again; a failure here is only a warning.
    LaunchCodex,
    /// Done: report the proxy's status.
    Report,
    /// Stop with this error.
    Fail(String),
}

/// How the last step went.
#[derive(Debug)]
pub enum StepResult {
    Done,
    Failed(String),
    /// The outcome of a check.
    Checked(bool),
}

pub open spec fn no_mapping_error() -> Seq<char> {
    "请至少配置并启用一条指向已启用供应商的模型映射"@
}

pub open spec fn injection_lost_error() -> Seq<char> {
    "配置注入未生效：Codex/ChatGPT 可能仍在运行并覆盖了 config.toml，请先完全退出后重试"@
}

/// The first step: a running proxy is only reported; without a routable
/// mapping there is nothing to serve; and a proxy is never bound to anything
/// but a loopback address, whatever the configuration file says.
pub fn start_proxy_begin(config: &AppConfig, running: bool) -> (r: StartStep)
    ensures
        if running {
            r == StartStep::Report
        } else if !has_routable_mapping_spec(*config) {
            r matches StartStep::Fail(e) && e@ == no_mapping_error()
        } else if !loopback_bind(config.settings) {
            r matches StartStep::Fail(e) && e@ == bind_error()
        } else {
            r == StartStep::WriteCatalog
        },
{
    if running {
        StartStep::Report
    } else if !has_routable_mapping(config) {
        StartStep::Fail(owned("请至少配置并启用一条指向已启用供应商的模型映射"))
    } else if !is_loopback_bind(&config.settings) {
        StartStep::Fail(owned("为保证安全，代理只能绑定 127.0.0.1 或 ::1"))
    } else {
        StartStep::WriteCatalog
    }
}

/// `next` is the step after `step` went as `result`, where `restart` says
/// whether Codex is restarted around the change.
pub open spec fn start_transition(restart: bool, step: StartStep, result: StepResult, next: StartStep) -> bool {
    match step {
        StartStep::WriteCatalog => match result {
            StepResult::Failed(e) => next == StartStep::Fail(e),
            _ => next == if restart {
                StartStep::PrepareWrapper
            } else {
                StartStep::Inject
            },
        },
        StartStep::PrepareWrapper => match result {
            StepResult::Failed(e) => next == StartStep::Fail(e),
            _ => next == StartStep::QuitCodex,
        },
        StartStep::QuitCodex => match result {
            StepResult::Failed(e) => next == StartStep::Fail(e),
            _ => next == StartStep::Inject,
        },
        StartStep::Inject => match result {
            StepResult::Failed(e) => next == StartStep::Fail(e),
            _ => next == StartStep::VerifyInjection,
        },
        StartStep::VerifyInjection => match result {
            StepResult::Checked(true) => next == StartStep::SpawnSidecar,
            StepResult::Failed(e) => next == StartStep::Fail(e),
            _ => next matches StartStep::Fail(e) && e@ == injection_lost_error(),
        },
        StartStep::SpawnSidecar => match result {
            StepResult::Failed(e) => next == StartStep::RestoreAfterFailure(e),
            _ => next == if restart {
                StartStep::LaunchCodex
            } else {
                StartStep::Report
            },
        },
        StartStep::RestoreAfterFailure(e) => next == StartStep::Fail(e),
        StartStep::LaunchCodex => next == StartStep::Report,
        StartStep::Report => next == StartStep::Report,
        StartStep::Fail(e) => next == StartStep::Fail(e),
    }
}

/// The step after `step` went as `result`.
pub fn start_proxy_next(restart: bool, step: StartStep, result: StepResult) -> (r: StartStep)
    ensures
        start_transition(restart, step, result, r),
{
    match step {
        StartStep::WriteCatalog => match result {
            StepResult::Failed(e) => StartStep::Fail(e),
            _ => if restart {
                StartStep::PrepareWrapper
            } else {
                StartStep::Inject
            },
        },
        StartStep::PrepareWrapper => match result {
            StepResult::Failed(e) => StartStep::Fail(e),
            _ => StartStep::QuitCodex,
        },
        StartStep::QuitCodex => match result {
            StepResult::Failed(e) => StartStep::Fail(e),
            _ => StartStep::Inject,
        },
        StartStep::Inject => match result {
            StepResult::Failed(e) => StartStep::Fail(e),
            _ => StartStep::VerifyInjection,
        },
        StartStep::VerifyInjection => match result {
            StepResult::Checked(true) => StartStep::SpawnSidecar,
            StepResult::Failed(e) => StartStep::Fail(e),
            _ => StartStep::Fail(
                owned("配置注入未生效：Codex/ChatGPT 可能仍在运行并覆盖了 config.toml，请先完全退出后重试"),
            ),
        },
        StartStep::SpawnSidecar => match result {
            StepResult::Failed(e) => StartStep::RestoreAfterFailure(e),
            _ => if restart {
                StartStep::LaunchCodex
            } else {
                StartStep::Report
            },
        },
        StartStep::RestoreAfterFailure(e) => StartStep::Fail(e),
        StartStep::LaunchCodex => StartStep::Report,
        StartStep::Report => StartStep::Report,
        StartStep::Fail(e) => StartStep::Fail(e),
    }
}

/// How far a step is from the end of the start sequence.
pub open spec fn steps_left(step: StartStep) -> nat {
    match step {
        StartStep::WriteCatalog => 8,
        StartStep::PrepareWrapper => 7,
        StartStep::QuitCodex => 6,
        StartStep::Inject => 5,
        StartStep::VerifyInjection => 4,
        StartStep::SpawnSidecar => 3,
        StartStep::RestoreAfterFailure(_) => 2,
        StartStep::LaunchCodex => 1,
        StartStep::Report => 0,
        StartStep::Fail(_) => 0,
    }
}

/// The start sequence is safe and always ends: the sidecar is started only
/// once the injection has been checked to hold; a sidecar that fails to
/// start leads to the configuration being restored; with a restart, Codex
/// has been asked to quit before the configuration is touched; and every
/// step short of the end moves closer to it.
pub proof fn lemma_start_sequence(restart: bool, step: StartStep, result: StepResult, next: StartStep)
    requires
        start_transition(restart, step, result, next),
    ensures
        next == StartStep::SpawnSidecar ==> step == StartStep::VerifyInjection && result
            == StepResult::Checked(true),
        step == StartStep::SpawnSidecar && result is Failed ==> next is RestoreAfterFailure,
        restart && next == StartStep::Inject ==> step == StartStep::QuitCodex,
        steps_left(step) > 0 ==> steps_left(next) < steps_left(step),
        steps_left(step) == 0 ==> next == step,
{
}

/// Codex is launched only when the user asked for it to be restarted around
/// the change: without a restart, no step leads to `LaunchCodex`, and a
/// sidecar that started is followed straight by the report; with one, a
/// sidecar that started is followed by the launch. Without a restart, Codex
/// is not asked to quit either: the catalog is followed by the injection.
pub proof fn lemma_launch_only_with_restart(
    restart: bool,
    step: StartStep,
    result: StepResult,
    next: StartStep,
)
    requires
        start_transition(restart, step, result, next),
    ensures
        next == StartStep::LaunchCodex ==> restart,
        !restart && step == StartStep::SpawnSidecar && result !is Failed ==> next
            == StartStep::Report,
        restart && step == StartStep::SpawnSidecar && result !is Failed ==> next
            == StartStep::LaunchCodex,
        !restart && step == StartStep::WriteCatalog && result !is Failed ==> next
            == StartStep::Inject,
{
}

/// `{bind}:{port}`: where the proxy listens.
pub fn proxy_address(settings: &Settings) -> (r: String)
    ensures
        r@ == settings.bind_address@ + ":"@ + decimal_spec(settings.port as nat),
{
    let mut a = settings.bind_address.clone();
    a.append(":");
    let port = decimal(settings.port as u64);
    a.append(port.as_str());
    a
}

/// What is logged once the proxy runs: its address and the catalog's size.
pub fn proxy_started_message(settings: &Settings, catalog_count: usize) -> (r: String)
    ensures
        r@ == "代理已启动于 "@ + settings.bind_address@ + ":"@ + decimal_spec(settings.port as nat)
            + "，模型目录包含 "@ + decimal_spec(catalog_count as nat) + " 个模型"@,
{
    let mut m = owned("代理已启动于 ");
    let address = proxy_address(settings);
    m.append(address.as_str());
    m.append("，模型目录包含 ");
    let count = decimal(catalog_count as u64);
    m.append(count.as_str());
    m.append(" 个模型");
    m
}

pub open spec fn running_config_error() -> Seq<char> {
    "请先停止代理再修改配置，避免运行中的路由与界面不一致"@
}

pub open spec fn running_restore_error() -> Seq<char> {
    "请先停止代理再手动恢复配置"@
}

/// The configuration may only change while the proxy is stopped, so that the
/// routes in use always match what is shown.
pub fn config_change_allowed(running: bool) -> (r: Result<(), String>)
    ensures
        r is Ok <==> !running,
        r matches Err(e) ==> e@ == running_config_error(),
{
    if running {
        Err(owned("请先停止代理再修改配置，避免运行中的路由与界面不一致"))
    } else {
        Ok(())
    }
}

/// A manual restore of the Codex configuration waits for the proxy to stop.
pub fn manual_restore_allowed(running: bool) -> (r: Result<(), String>)
    ensures
        r is Ok <==> !running,
        r matches Err(e) ==> e@ == running_restore_error(),
{
    if running {
        Err(owned("请先停止代理再手动恢复配置"))
    } else {
        Ok(())
    }
}

} // verus!
