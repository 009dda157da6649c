//! Errors of the configuration logic.
use vstd::prelude::*;
use crate::text::{push_str, to_string};

verus! {

/// An error reported to the user. Each variant has a localization key (see
/// [`AppError::key`]) and carries the input that it is about.
#[derive(Debug)]
pub enum AppError {
    /// The installed Omp is older than the minimum supported version.
    OmpIncompatibleVersion(String),
    /// An Omp provider key does not match `^[a-z0-9][a-z0-9._-]*$`.
    OmpInvalidKey(String),
    /// An Omp model role is not one of the five roles.
    OmpInvalidRole(String),
    /// An Omp provider has no model to build a role selector from.
    OmpNoModels(String),
    /// An Omp provider is not present in `models.yml`.
    OmpProviderNotFound(String),
    /// The `providers:` section of `models.yml` is not a YAML mapping (or not
    /// convertible to JSON).
    OmpModelsInvalid,
    /// The `modelRoles:` section of `config.yml` is not a YAML mapping.
    OmpConfigInvalid,
    /// `models.yml` changed on disk since it was read.
    OmpModelsChangedOnDisk,
    /// `config.yml` changed on disk since it was read.
    OmpConfigChangedOnDisk,
    /// The installed Pi is older than the minimum supported version.
    PiIncompatibleVersion(String),
    /// A `managed:` Pi provider is read-only.
    PiManagedReadonly(String),
    /// A Pi config file does not hold a JSON object.
    PiNotObject,
    /// A node of `models.json` that must be an object is not one.
    PiModelsNotObject,
    /// `models.json` (or a backup's copy of it) is not valid JSON5.
    PiModelsInvalid,
    /// A provider entry's generated JSON text could not be read back.
    PiEntryInvalid,
    /// `models.json` changed on disk since it was read.
    PiModelsChangedOnDisk,
    /// `auth.json` kept changing on disk while it was being updated.
    PiAuthChangedOnDisk,
    /// A `managed:` Kimi Code provider is controlled by Kimi Code OAuth.
    KimiManagedReadonly(String),
    /// A `managed:` Kimi Code provider cannot be removed.
    KimiManagedNotRemovable(String),
    /// A node of Kimi Code's `config.toml` that must be a table is not one.
    KimiConfigNotTable,
    /// Kimi Code's `config.toml` is not valid TOML.
    KimiInvalidToml,
    /// An MCP server specification is not acceptable.
    McpValidation(String),
}

/// An error of the local proxy adapter.
#[derive(Debug)]
pub enum ProxyError {
    /// The provider's configuration lacks what the adapter needs.
    ConfigError(String),
    /// An authentication header value holds bytes that HTTP forbids.
    InvalidHeaderValue,
}

/// The localization key of an error.
pub open spec fn error_key(e: AppError) -> Seq<char> {
    match e {
        AppError::OmpIncompatibleVersion(_) => "provider.omp.incompatible_version"@,
        AppError::OmpInvalidKey(_) => "provider.omp.invalid_key"@,
        AppError::OmpInvalidRole(_) => "provider.omp.invalid_role"@,
        AppError::OmpNoModels(_) => "provider.omp.no_models"@,
        AppError::OmpProviderNotFound(_) => "provider.omp.provider_not_found"@,
        AppError::OmpModelsInvalid => "provider.omp.models.invalid"@,
        AppError::OmpConfigInvalid => "provider.omp.config.invalid"@,
        AppError::OmpModelsChangedOnDisk => "provider.omp.models.changed_on_disk"@,
        AppError::OmpConfigChangedOnDisk => "provider.omp.config.changed_on_disk"@,
        AppError::PiIncompatibleVersion(_) => "provider.pi.incompatible_version"@,
        AppError::PiManagedReadonly(_) => "provider.pi.managed.readonly"@,
        AppError::PiNotObject => "provider.pi.config.not_object"@,
        AppError::PiModelsNotObject => "provider.pi.models.not_object"@,
        AppError::PiModelsInvalid => "provider.pi.models.invalid"@,
        AppError::PiEntryInvalid => "provider.pi.entry.invalid"@,
        AppError::PiModelsChangedOnDisk => "provider.pi.models.changed_on_disk"@,
        AppError::PiAuthChangedOnDisk => "provider.pi.auth.changed_on_disk"@,
        AppError::KimiManagedReadonly(_) => "provider.kimicode.managed.readonly"@,
        AppError::KimiManagedNotRemovable(_) => "provider.kimicode.managed.readonly"@,
        AppError::KimiConfigNotTable => "provider.kimicode.config.not_table"@,
        AppError::KimiInvalidToml => "provider.kimicode.config.invalid_toml"@,
        AppError::McpValidation(_) => "mcp.validation"@,
    }
}

/// The error's message in English; it names the input where the variant
/// carries one.
pub open spec fn error_message_en(e: AppError) -> Seq<char> {
    match e {
        AppError::OmpIncompatibleVersion(v) => "Omp version "@ + v@ + " is below the minimum supported 17.0.0; config writes are blocked. Please upgrade Omp."@,
        AppError::OmpInvalidKey(v) => "Invalid Omp provider key '"@ + v@ + "': must match ^[a-z0-9][a-z0-9._-]*$ (no ':' or '/')"@,
        AppError::OmpInvalidRole(v) => "Invalid Omp model role '"@ + v@ + "'. Allowed: default, smol, slow, plan, commit."@,
        AppError::OmpNoModels(v) => "Omp provider '"@ + v@ + "' has no models; cannot build a role selector"@,
        AppError::OmpProviderNotFound(v) => "Omp provider '"@ + v@ + "' not found in models.yml"@,
        AppError::OmpModelsInvalid => "The providers section of Omp models.yml must be a YAML mapping"@,
        AppError::OmpConfigInvalid => "The modelRoles section of Omp config.yml must be a YAML mapping"@,
        AppError::OmpModelsChangedOnDisk => "Omp models.yml changed on disk; please retry"@,
        AppError::OmpConfigChangedOnDisk => "Omp config.yml changed on disk; please retry"@,
        AppError::PiIncompatibleVersion(v) => "Pi version "@ + v@ + " is below the minimum supported 0.52.7; config writes are blocked. Please upgrade Pi."@,
        AppError::PiManagedReadonly(v) => "Managed provider '"@ + v@ + "' is controlled by Pi; edit it inside Pi"@,
        AppError::PiNotObject => "Pi config file must contain a JSON object"@,
        AppError::PiModelsNotObject => "Pi models.json node must be a JSON object"@,
        AppError::PiModelsInvalid => "Failed to parse Pi models.json"@,
        AppError::PiEntryInvalid => "Failed to parse generated Pi provider JSON"@,
        AppError::PiModelsChangedOnDisk => "Pi models.json changed on disk; please retry"@,
        AppError::PiAuthChangedOnDisk => "Pi auth.json changed on disk; please retry"@,
        AppError::KimiManagedReadonly(v) => "Managed provider '"@ + v@ + "' is controlled by Kimi Code OAuth; use /login in the CLI"@,
        AppError::KimiManagedNotRemovable(v) => "Managed provider '"@ + v@ + "' is controlled by Kimi Code OAuth and cannot be removed"@,
        AppError::KimiConfigNotTable => "Kimi Code configuration node must be a table"@,
        AppError::KimiInvalidToml => "Invalid Kimi Code config.toml"@,
        AppError::McpValidation(v) => v@,
    }
}

/// The error's message in Chinese.
pub open spec fn error_message_zh(e: AppError) -> Seq<char> {
    match e {
        AppError::OmpIncompatibleVersion(v) => "检测到 Omp 版本 "@ + v@ + " 低于最低支持版本 17.0.0，已阻止写入配置。请升级 Omp 后重试。"@,
        AppError::OmpInvalidKey(v) => "Omp 供应商标识 '"@ + v@ + "' 无效：必须匹配 ^[a-z0-9][a-z0-9._-]*$（不得包含 ':' 或 '/'）"@,
        AppError::OmpInvalidRole(v) => "Omp 模型角色 '"@ + v@ + "' 无效。可选值: default, smol, slow, plan, commit。"@,
        AppError::OmpNoModels(v) => "Omp 供应商 '"@ + v@ + "' 没有可用模型，无法生成角色选择器"@,
        AppError::OmpProviderNotFound(v) => "Omp 供应商 '"@ + v@ + "' 不存在于 models.yml"@,
        AppError::OmpModelsInvalid => "Omp models.yml 的 providers 区段必须是 YAML 映射"@,
        AppError::OmpConfigInvalid => "Omp config.yml 的 modelRoles 区段必须是 YAML 映射"@,
        AppError::OmpModelsChangedOnDisk => "Omp models.yml 在磁盘上已被修改，请重试"@,
        AppError::OmpConfigChangedOnDisk => "Omp config.yml 在磁盘上已被修改，请重试"@,
        AppError::PiIncompatibleVersion(v) => "检测到 Pi 版本 "@ + v@ + " 低于最低支持版本 0.52.7，已阻止写入配置。请升级 Pi 后重试。"@,
        AppError::PiManagedReadonly(v) => "托管供应商 '"@ + v@ + "' 由 Pi 管理，请在 Pi 中修改"@,
        AppError::PiNotObject => "Pi 配置文件的顶层必须是 JSON 对象"@,
        AppError::PiModelsNotObject => "Pi models.json 节点必须是 JSON 对象"@,
        AppError::PiModelsInvalid => "Pi models.json 解析失败"@,
        AppError::PiEntryInvalid => "生成的 Pi 供应商 JSON 解析失败"@,
        AppError::PiModelsChangedOnDisk => "Pi models.json 在磁盘上已被修改，请重试"@,
        AppError::PiAuthChangedOnDisk => "Pi auth.json 在磁盘上已被修改，请重试"@,
        AppError::KimiManagedReadonly(v) => "托管供应商 '"@ + v@ + "' 由 Kimi Code OAuth 管理，请在 CLI 中使用 /login 修改"@,
        AppError::KimiManagedNotRemovable(v) => "托管供应商 '"@ + v@ + "' 由 Kimi Code OAuth 管理，无法删除"@,
        AppError::KimiConfigNotTable => "Kimi Code 配置节点必须是表结构"@,
        AppError::KimiInvalidToml => "Kimi Code config.toml 格式错误"@,
        AppError::McpValidation(v) => v@,
    }
}

/// `before`, `x` and `after`, one after the other.
fn around(before: &str, x: &str, after: &str) -> (r: String)
    ensures
        r@ == before@ + x@ + after@,
{
    let mut r = to_string(before);
    push_str(&mut r, x);
    push_str(&mut r, after);
    r
}

impl AppError {
    /// The localization key of the error.
    pub fn key(&self) -> (k: &'static str)
        ensures
            k@ == error_key(*self),
    {
        match self {
            AppError::OmpIncompatibleVersion(_) => "provider.omp.incompatible_version",
            AppError::OmpInvalidKey(_) => "provider.omp.invalid_key",
            AppError::OmpInvalidRole(_) => "provider.omp.invalid_role",
            AppError::OmpNoModels(_) => "provider.omp.no_models",
            AppError::OmpProviderNotFound(_) => "provider.omp.provider_not_found",
            AppError::OmpModelsInvalid => "provider.omp.models.invalid",
            AppError::OmpConfigInvalid => "provider.omp.config.invalid",
            AppError::OmpModelsChangedOnDisk => "provider.omp.models.changed_on_disk",
            AppError::OmpConfigChangedOnDisk => "provider.omp.config.changed_on_disk",
            AppError::PiIncompatibleVersion(_) => "provider.pi.incompatible_version",
            AppError::PiManagedReadonly(_) => "provider.pi.managed.readonly",
            AppError::PiNotObject => "provider.pi.config.not_object",
            AppError::PiModelsNotObject => "provider.pi.models.not_object",
            AppError::PiModelsInvalid => "provider.pi.models.invalid",
            AppError::PiEntryInvalid => "provider.pi.entry.invalid",
            AppError::PiModelsChangedOnDisk => "provider.pi.models.changed_on_disk",
            AppError::PiAuthChangedOnDisk => "provider.pi.auth.changed_on_disk",
            AppError::KimiManagedReadonly(_) => "provider.kimicode.managed.readonly",
            AppError::KimiManagedNotRemovable(_) => "provider.kimicode.managed.readonly",
            AppError::KimiConfigNotTable => "provider.kimicode.config.not_table",
            AppError::KimiInvalidToml => "provider.kimicode.config.invalid_toml",
            AppError::McpValidation(_) => "mcp.validation",
        }
    }
    /// The message shown to the user, in English.
    pub fn message_en(&self) -> (r: String)
        ensures
            r@ == error_message_en(*self),
    {
        match self {
            AppError::OmpIncompatibleVersion(v) => around("Omp version ", v.as_str(), " is below the minimum supported 17.0.0; config writes are blocked. Please upgrade Omp."),
            AppError::OmpInvalidKey(v) => around("Invalid Omp provider key '", v.as_str(), "': must match ^[a-z0-9][a-z0-9._-]*$ (no ':' or '/')"),
            AppError::OmpInvalidRole(v) => around("Invalid Omp model role '", v.as_str(), "'. Allowed: default, smol, slow, plan, commit."),
            AppError::OmpNoModels(v) => around("Omp provider '", v.as_str(), "' has no models; cannot build a role selector"),
            AppError::OmpProviderNotFound(v) => around("Omp provider '", v.as_str(), "' not found in models.yml"),
            AppError::OmpModelsInvalid => to_string("The providers section of Omp models.yml must be a YAML mapping"),
            AppError::OmpConfigInvalid => to_string("The modelRoles section of Omp config.yml must be a YAML mapping"),
            AppError::OmpModelsChangedOnDisk => to_string("Omp models.yml changed on disk; please retry"),
            AppError::OmpConfigChangedOnDisk => to_string("Omp config.yml changed on disk; please retry"),
            AppError::PiIncompatibleVersion(v) => around("Pi version ", v.as_str(), " is below the minimum supported 0.52.7; config writes are blocked. Please upgrade Pi."),
            AppError::PiManagedReadonly(v) => around("Managed provider '", v.as_str(), "' is controlled by Pi; edit it inside Pi"),
            AppError::PiNotObject => to_string("Pi config file must contain a JSON object"),
            AppError::PiModelsNotObject => to_string("Pi models.json node must be a JSON object"),
            AppError::PiModelsInvalid => to_string("Failed to parse Pi models.json"),
            AppError::PiEntryInvalid => to_string("Failed to parse generated Pi provider JSON"),
            AppError::PiModelsChangedOnDisk => to_string("Pi models.json changed on disk; please retry"),
            AppError::PiAuthChangedOnDisk => to_string("Pi auth.json changed on disk; please retry"),
            AppError::KimiManagedReadonly(v) => around("Managed provider '", v.as_str(), "' is controlled by Kimi Code OAuth; use /login in the CLI"),
            AppError::KimiManagedNotRemovable(v) => around("Managed provider '", v.as_str(), "' is controlled by Kimi Code OAuth and cannot be removed"),
            AppError::KimiConfigNotTable => to_string("Kimi Code configuration node must be a table"),
            AppError::KimiInvalidToml => to_string("Invalid Kimi Code config.toml"),
            AppError::McpValidation(v) => to_string(v.as_str()),
        }
    }

    /// The message shown to the user, in Chinese.
    pub fn message_zh(&self) -> (r: String)
        ensures
            r@ == error_message_zh(*self),
    {
        match self {
            AppError::OmpIncompatibleVersion(v) => around("检测到 Omp 版本 ", v.as_str(), " 低于最低支持版本 17.0.0，已阻止写入配置。请升级 Omp 后重试。"),
            AppError::OmpInvalidKey(v) => around("Omp 供应商标识 '", v.as_str(), "' 无效：必须匹配 ^[a-z0-9][a-z0-9._-]*$（不得包含 ':' 或 '/'）"),
            AppError::OmpInvalidRole(v) => around("Omp 模型角色 '", v.as_str(), "' 无效。可选值: default, smol, slow, plan, commit。"),
            AppError::OmpNoModels(v) => around("Omp 供应商 '", v.as_str(), "' 没有可用模型，无法生成角色选择器"),
            AppError::OmpProviderNotFound(v) => around("Omp 供应商 '", v.as_str(), "' 不存在于 models.yml"),
            AppError::OmpModelsInvalid => to_string("Omp models.yml 的 providers 区段必须是 YAML 映射"),
            AppError::OmpConfigInvalid => to_string("Omp config.yml 的 modelRoles 区段必须是 YAML 映射"),
            AppError::OmpModelsChangedOnDisk => to_string("Omp models.yml 在磁盘上已被修改，请重试"),
            AppError::OmpConfigChangedOnDisk => to_string("Omp config.yml 在磁盘上已被修改，请重试"),
            AppError::PiIncompatibleVersion(v) => around("检测到 Pi 版本 ", v.as_str(), " 低于最低支持版本 0.52.7，已阻止写入配置。请升级 Pi 后重试。"),
            AppError::PiManagedReadonly(v) => around("托管供应商 '", v.as_str(), "' 由 Pi 管理，请在 Pi 中修改"),
            AppError::PiNotObject => to_string("Pi 配置文件的顶层必须是 JSON 对象"),
            AppError::PiModelsNotObject => to_string("Pi models.json 节点必须是 JSON 对象"),
            AppError::PiModelsInvalid => to_string("Pi models.json 解析失败"),
            AppError::PiEntryInvalid => to_string("生成的 Pi 供应商 JSON 解析失败"),
            AppError::PiModelsChangedOnDisk => to_string("Pi models.json 在磁盘上已被修改，请重试"),
            AppError::PiAuthChangedOnDisk => to_string("Pi auth.json 在磁盘上已被修改，请重试"),
            AppError::KimiManagedReadonly(v) => around("托管供应商 '", v.as_str(), "' 由 Kimi Code OAuth 管理，请在 CLI 中使用 /login 修改"),
            AppError::KimiManagedNotRemovable(v) => around("托管供应商 '", v.as_str(), "' 由 Kimi Code OAuth 管理，无法删除"),
            AppError::KimiConfigNotTable => to_string("Kimi Code 配置节点必须是表结构"),
            AppError::KimiInvalidToml => to_string("Kimi Code config.toml 格式错误"),
            AppError::McpValidation(v) => to_string(v.as_str()),
        }
    }
}

} // verus!
