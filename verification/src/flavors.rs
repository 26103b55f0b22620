//! Flavors: preconfigured dev environments.
//!
//! A *flavor* is a named, bootable base state. The built-in catalog holds
//! curated environments (a base image plus default ports and env and an
//! optional provisioning script); user flavors have the same shape and come
//! from a `flavors.toml`. This module holds the catalog, the lookup rules,
//! the build-method rule shown in the UI, and the Dockerfiles that reproduce
//! a flavor's provisioning for the prebuilt images.

use vstd::prelude::*;

use crate::text::{lex_le, lex_le_exec, push_str, str_eq, string_of};

verus! {

/// The image every node-based agent sandbox is built on.
pub const AGENT_BASE_IMAGE: &'static str = "node:24";

/// Where prebuilt flavor images are published.
pub const PREBUILT_REGISTRY: &'static str = "ghcr.io/tsirysndr";

/// The name of the shared cache-seed image. Underscore-prefixed because it
/// is not a flavor: nothing launches it.
pub const BASE_IMAGE_DIR: &'static str = "_base";

/// The GitHub CLI, in every agent sandbox (alpine package or GitHub's apt
/// repository; a sandbox without it still works).
pub const GH_CLI_STEP: &'static str = "command -v gh >/dev/null 2>&1 || (command -v apk >/dev/null 2>&1 && apk add --no-cache github-cli) || (command -v apt-get >/dev/null 2>&1 && apt-get update && apt-get install -y curl ca-certificates && mkdir -p -m 755 /etc/apt/keyrings && curl -fsSL https://cli.github.com/packages/githubcli-archive-keyring.gpg -o /etc/apt/keyrings/githubcli-archive-keyring.gpg && chmod go+r /etc/apt/keyrings/githubcli-archive-keyring.gpg && echo \"deb [arch=$(dpkg --print-architecture) signed-by=/etc/apt/keyrings/githubcli-archive-keyring.gpg] https://cli.github.com/packages stable main\" > /etc/apt/sources.list.d/github-cli.list && apt-get update && apt-get install -y gh) || true";
/// Docker inside a guest: the daemon, the CLI, buildx and compose.
pub const DOCKER_ENGINE_STEP: &'static str = "command -v dockerd >/dev/null 2>&1 || (curl -fsSL https://get.docker.com | sh) || true";
/// Determinate Nix, single-user, with `nix` linked onto `PATH`.
pub const NIX_ENGINE_STEP: &'static str = "command -v nix >/dev/null 2>&1 || ((curl --proto '=https' --tlsv1.2 -sSf -L https://install.determinate.systems/nix | sh -s -- install linux --extra-conf 'sandbox = false' --init none --no-confirm) && ln -sf /nix/var/nix/profiles/default/bin/nix /usr/local/bin/nix)";

/// The base a catalog flavor builds on.
#[derive(Clone, Copy, Debug, PartialEq, Eq)]
pub enum Base {
    /// An OCI image reference, e.g. `node:22`.
    Oci(&'static str),
    /// The bundled FreeBSD guest.
    Freebsd,
    /// The bundled NetBSD guest.
    Netbsd,
}

/// A base as a value: the OCI reference's characters, or the BSD guest.
#[verifier::ext_equal]
pub enum BaseView {
    Oci(Seq<char>),
    Freebsd,
    Netbsd,
}

impl View for Base {
    type V = BaseView;

    open spec fn view(&self) -> BaseView {
        match *self {
            Base::Oci(r) => BaseView::Oci(r@),
            Base::Freebsd => BaseView::Freebsd,
            Base::Netbsd => BaseView::Netbsd,
        }
    }
}

/// A built-in, curated environment.
#[derive(Debug)]
pub struct CatalogFlavor {
    pub name: &'static str,
    /// Grouping for the UI: `language` / `service` / `web` / `ai` / `os`.
    pub category: &'static str,
    pub description: &'static str,
    pub base: Base,
    /// Default host-to-guest port forwards (`HOST:GUEST`).
    pub ports: Vec<&'static str>,
    /// Default environment (`K=V`).
    pub env: Vec<&'static str>,
    /// Nix packages to install (ignored on a BSD base).
    pub nix: Vec<&'static str>,
    /// Shell commands run in the guest after boot, in order.
    pub provision: Vec<&'static str>,
}

/// A catalog flavor as a value.
#[verifier::ext_equal]
pub struct FlavorView {
    pub name: Seq<char>,
    pub category: Seq<char>,
    pub description: Seq<char>,
    pub base: BaseView,
    pub ports: Seq<Seq<char>>,
    pub env: Seq<Seq<char>>,
    pub nix: Seq<Seq<char>>,
    pub provision: Seq<Seq<char>>,
}

pub open spec fn strs(v: Seq<&'static str>) -> Seq<Seq<char>> {
    v.map_values(|s: &'static str| s@)
}

impl View for CatalogFlavor {
    type V = FlavorView;

    open spec fn view(&self) -> FlavorView {
        FlavorView {
            name: self.name@,
            category: self.category@,
            description: self.description@,
            base: self.base@,
            ports: strs(self.ports@),
            env: strs(self.env@),
            nix: strs(self.nix@),
            provision: strs(self.provision@),
        }
    }
}

/// The guest kind for a base: `linux`, `freebsd` or `netbsd`.
pub open spec fn kind_spec(b: BaseView) -> Seq<char> {
    match b {
        BaseView::Oci(_) => "linux"@,
        BaseView::Freebsd => "freebsd"@,
        BaseView::Netbsd => "netbsd"@,
    }
}

/// The reference a base boots: the OCI image, or the BSD slug.
pub open spec fn image_spec(b: BaseView) -> Seq<char> {
    match b {
        BaseView::Oci(r) => r,
        BaseView::Freebsd => "freebsd"@,
        BaseView::Netbsd => "netbsd"@,
    }
}

/// The build method shown in the UI: Nix packages win, then provisioning
/// steps, then a plain OCI image is `docker`; a bare BSD base is `system`.
pub open spec fn method_spec(is_oci: bool, nix_empty: bool, provision_empty: bool) -> Seq<char> {
    if !nix_empty {
        "nix"@
    } else if !provision_empty {
        "system"@
    } else if is_oci {
        "docker"@
    } else {
        "system"@
    }
}

fn method_for(is_oci: bool, nix_empty: bool, provision_empty: bool) -> (r: &'static str)
    ensures
        r@ == method_spec(is_oci, nix_empty, provision_empty),
{
    if !nix_empty {
        "nix"
    } else if !provision_empty {
        "system"
    } else if is_oci {
        "docker"
    } else {
        "system"
    }
}

impl CatalogFlavor {
    /// The guest kind the launcher should use for this flavor's base.
    pub fn kind(&self) -> (r: &'static str)
        ensures
            r@ == kind_spec(self.base@),
    {
        match self.base {
            Base::Oci(_) => "linux",
            Base::Freebsd => "freebsd",
            Base::Netbsd => "netbsd",
        }
    }

    /// The image/base reference to boot (an OCI ref, or the BSD slug).
    pub fn image(&self) -> (r: &'static str)
        ensures
            r@ == image_spec(self.base@),
    {
        match self.base {
            Base::Oci(r) => r,
            Base::Freebsd => "freebsd",
            Base::Netbsd => "netbsd",
        }
    }

    /// How this flavor is built, for the UI: `nix`, `system`, or `docker`.
    pub fn method(&self) -> (r: &'static str)
        ensures
            r@ == method_spec(self.base@ is Oci, self.nix@.len() == 0, self.provision@.len() == 0),
    {
        let is_oci = match self.base {
            Base::Oci(_) => true,
            _ => false,
        };
        method_for(is_oci, self.nix.len() == 0, self.provision.len() == 0)
    }
}

fn entry(
    name: &'static str,
    category: &'static str,
    description: &'static str,
    base: Base,
    ports: Vec<&'static str>,
    env: Vec<&'static str>,
    nix: Vec<&'static str>,
    provision: Vec<&'static str>,
) -> (r: CatalogFlavor)
    ensures
        r@ == entry_view(name@, category@, description@, base@, strs(ports@), strs(env@), strs(nix@), strs(provision@)),
{
    CatalogFlavor { name, category, description, base, ports, env, nix, provision }
}

pub open spec fn entry_view(
    name: Seq<char>,
    category: Seq<char>,
    description: Seq<char>,
    base: BaseView,
    ports: Seq<Seq<char>>,
    env: Seq<Seq<char>>,
    nix: Seq<Seq<char>>,
    provision: Seq<Seq<char>>,
) -> FlavorView {
    FlavorView { name, category, description, base, ports, env, nix, provision }
}

/// Entry `i` of the built-in catalog (the last one past the end).
pub open spec fn catalog_entry(i: int) -> FlavorView {
    if i == 0 {
        entry_view(
        "node"@,
        "language"@,
        "Node.js 22 runtime (npm, corepack)."@,
        BaseView::Oci("node:22"@),
        seq![],
        seq![],
        seq![],
        seq![],
        )
    } else if i == 1 {
        entry_view(
        "python"@,
        "language"@,
        "Python 3.12 with the uv package manager."@,
        BaseView::Oci("python:3.12-slim"@),
        seq![],
        seq![],
        seq![],
        seq!["pip install --no-cache-dir uv 2>/dev/null || (apt-get update && apt-get install -y curl && curl -LsSf https://astral.sh/uv/install.sh | sh)"@],
        )
    } else if i == 2 {
        entry_view(
        "php"@,
        "language"@,
        "PHP 8.3 CLI with Composer."@,
        BaseView::Oci("php:8.3-cli"@),
        seq![],
        seq![],
        seq![],
        seq!["command -v composer >/dev/null || (curl -sS https://getcomposer.org/installer | php -- --install-dir=/usr/local/bin --filename=composer)"@],
        )
    } else if i == 3 {
        entry_view(
        "laravel"@,
        "language"@,
        "PHP 8.3 + Composer + Node for Laravel apps."@,
        BaseView::Oci("php:8.3-cli"@),
        seq!["8000:8000"@],
        seq![],
        seq![],
        seq!["apt-get update && apt-get install -y git unzip curl libzip-dev nodejs npm"@, "docker-php-ext-install zip pdo pdo_mysql >/dev/null 2>&1 || true"@, "curl -sS https://getcomposer.org/installer | php -- --install-dir=/usr/local/bin --filename=composer"@],
        )
    } else if i == 4 {
        entry_view(
        "symfony"@,
        "language"@,
        "PHP 8.3 + Composer + Symfony CLI."@,
        BaseView::Oci("php:8.3-cli"@),
        seq!["8000:8000"@],
        seq![],
        seq![],
        seq!["apt-get update && apt-get install -y git unzip curl"@, "curl -sS https://getcomposer.org/installer | php -- --install-dir=/usr/local/bin --filename=composer"@, "curl -1sLf https://get.symfony.com/cli/installer | bash || true"@],
        )
    } else if i == 5 {
        entry_view(
        "elixir"@,
        "language"@,
        "Elixir/Erlang (mix, hex)."@,
        BaseView::Oci("elixir:1.17"@),
        seq![],
        seq![],
        seq![],
        seq!["mix local.hex --force >/dev/null 2>&1 || true"@, "mix local.rebar --force >/dev/null 2>&1 || true"@],
        )
    } else if i == 6 {
        entry_view(
        "phoenix"@,
        "language"@,
        "Elixir + Phoenix web framework (mix phx.new)."@,
        BaseView::Oci("elixir:1.17"@),
        seq!["4000:4000"@],
        seq![],
        seq![],
        seq!["mix local.hex --force >/dev/null 2>&1 || true"@, "mix local.rebar --force >/dev/null 2>&1 || true"@, "mix archive.install hex phx_new --force >/dev/null 2>&1 || true"@],
        )
    } else if i == 7 {
        entry_view(
        "gleam"@,
        "language"@,
        "Gleam 1.18 on the BEAM (official image)."@,
        BaseView::Oci("ghcr.io/gleam-lang/gleam:v1.18.1-erlang"@),
        seq![],
        seq![],
        seq![],
        seq![],
        )
    } else if i == 8 {
        entry_view(
        "uv"@,
        "language"@,
        "Python 3.13 with uv 0.12 (Astral's installer/resolver)."@,
        BaseView::Oci("ghcr.io/astral-sh/uv:0.12.5-python3.13-trixie"@),
        seq![],
        seq![],
        seq![],
        seq![],
        )
    } else if i == 9 {
        entry_view(
        "mise"@,
        "language"@,
        "mise — one runtime manager for node, python, go, rust…"@,
        BaseView::Oci("ghcr.io/jdx/mise:2026.8.8"@),
        seq![],
        seq![],
        seq![],
        seq![],
        )
    } else if i == 10 {
        entry_view(
        "clojure"@,
        "language"@,
        "Clojure with the official CLI tools."@,
        BaseView::Oci("clojure:temurin-21-tools-deps"@),
        seq![],
        seq![],
        seq![],
        seq![],
        )
    } else if i == 11 {
        entry_view(
        "codex"@,
        "ai"@,
        "OpenAI Codex CLI coding agent."@,
        BaseView::Oci(AGENT_BASE_IMAGE@),
        seq![],
        seq![],
        seq![],
        seq![GH_CLI_STEP@, DOCKER_ENGINE_STEP@, NIX_ENGINE_STEP@, "apt-get update && apt-get install -y git"@, "npm install -g @openai/codex"@],
        )
    } else if i == 12 {
        entry_view(
        "gemini"@,
        "ai"@,
        "Gemini CLI — Google's terminal coding agent."@,
        BaseView::Oci(AGENT_BASE_IMAGE@),
        seq![],
        seq![],
        seq![],
        seq![GH_CLI_STEP@, DOCKER_ENGINE_STEP@, NIX_ENGINE_STEP@, "apt-get update && apt-get install -y git ripgrep"@, "npm install -g @google/gemini-cli"@],
        )
    } else if i == 13 {
        entry_view(
        "kilo"@,
        "ai"@,
        "Kilo Code — terminal AI coding agent."@,
        BaseView::Oci(AGENT_BASE_IMAGE@),
        seq![],
        seq![],
        seq![],
        seq![GH_CLI_STEP@, DOCKER_ENGINE_STEP@, NIX_ENGINE_STEP@, "apt-get update && apt-get install -y git"@, "npm install -g @kilocode/cli"@],
        )
    } else if i == 14 {
        entry_view(
        "qwen"@,
        "ai"@,
        "Qwen Code — Alibaba's terminal coding agent."@,
        BaseView::Oci(AGENT_BASE_IMAGE@),
        seq![],
        seq![],
        seq![],
        seq![GH_CLI_STEP@, DOCKER_ENGINE_STEP@, NIX_ENGINE_STEP@, "apt-get update && apt-get install -y git"@, "npm install -g @qwen-code/qwen-code"@],
        )
    } else if i == 15 {
        entry_view(
        "kiro-cli"@,
        "ai"@,
        "Kiro CLI — AWS's agentic coding CLI."@,
        BaseView::Oci(AGENT_BASE_IMAGE@),
        seq![],
        seq![],
        seq![],
        seq![GH_CLI_STEP@, DOCKER_ENGINE_STEP@, NIX_ENGINE_STEP@, "apt-get update && apt-get install -y git curl unzip"@, "curl -fsSL https://cli.kiro.dev/install | bash -s -- --force"@, "ln -sf \"$HOME/.local/bin/kiro-cli\" /usr/local/bin/kiro-cli"@],
        )
    } else if i == 16 {
        entry_view(
        "opencode"@,
        "ai"@,
        "OpenCode — open-source terminal AI coding agent."@,
        BaseView::Oci(AGENT_BASE_IMAGE@),
        seq![],
        seq![],
        seq![],
        seq![GH_CLI_STEP@, DOCKER_ENGINE_STEP@, NIX_ENGINE_STEP@, "apt-get update && apt-get install -y git curl"@, "npm install -g opencode-ai || curl -fsSL https://opencode.ai/install | bash"@],
        )
    } else if i == 17 {
        entry_view(
        "crush"@,
        "ai"@,
        "Crush — Charm's glamourous terminal AI coding agent."@,
        BaseView::Oci(AGENT_BASE_IMAGE@),
        seq![],
        seq![],
        seq![],
        seq![GH_CLI_STEP@, DOCKER_ENGINE_STEP@, NIX_ENGINE_STEP@, "apt-get update && apt-get install -y git curl"@, "npm install -g @charmland/crush"@],
        )
    } else if i == 18 {
        entry_view(
        "copilot"@,
        "ai"@,
        "GitHub Copilot CLI coding agent."@,
        BaseView::Oci(AGENT_BASE_IMAGE@),
        seq![],
        seq![],
        seq![],
        seq![GH_CLI_STEP@, DOCKER_ENGINE_STEP@, NIX_ENGINE_STEP@, "apt-get update && apt-get install -y git"@, "npm install -g @github/copilot"@],
        )
    } else if i == 19 {
        entry_view(
        "openclaw"@,
        "ai"@,
        "OpenClaw — personal AI assistant / multi-channel gateway."@,
        BaseView::Oci(AGENT_BASE_IMAGE@),
        seq![],
        seq![],
        seq![],
        seq![GH_CLI_STEP@, DOCKER_ENGINE_STEP@, NIX_ENGINE_STEP@, "apt-get update && apt-get install -y git ripgrep"@, "npm install -g openclaw"@],
        )
    } else if i == 20 {
        entry_view(
        "nanoclaw"@,
        "ai"@,
        "nanoclaw — containerised AI assistant (needs Docker; run ./nanoclaw.sh)."@,
        BaseView::Oci("docker:dind"@),
        seq![],
        seq!["DOCKER_TLS_CERTDIR="@],
        seq![],
        seq!["apk add --no-cache git nodejs npm curl bash >/dev/null 2>&1 || (apt-get update && apt-get install -y git nodejs npm curl bash)"@, GH_CLI_STEP@, "npm install -g pnpm"@, "git clone --depth 1 https://github.com/nanocoai/nanoclaw.git /opt/nanoclaw"@, "echo 'cd /opt/nanoclaw && ./nanoclaw.sh' > /etc/bsdkrun-motd"@],
        )
    } else if i == 21 {
        entry_view(
        "postgres"@,
        "service"@,
        "PostgreSQL 16 (user postgres / password secret)."@,
        BaseView::Oci("postgres:16"@),
        seq!["5432:5432"@],
        seq!["POSTGRES_PASSWORD=secret"@, "POSTGRES_USER=postgres"@],
        seq![],
        seq![],
        )
    } else if i == 22 {
        entry_view(
        "mariadb"@,
        "service"@,
        "MariaDB 11 (root password secret)."@,
        BaseView::Oci("mariadb:11"@),
        seq!["3306:3306"@],
        seq!["MARIADB_ROOT_PASSWORD=secret"@],
        seq![],
        seq![],
        )
    } else if i == 23 {
        entry_view(
        "mysql"@,
        "service"@,
        "MySQL 8 (root password secret)."@,
        BaseView::Oci("mysql:8"@),
        seq!["3306:3306"@],
        seq!["MYSQL_ROOT_PASSWORD=secret"@],
        seq![],
        seq![],
        )
    } else if i == 24 {
        entry_view(
        "redis"@,
        "service"@,
        "Redis 7 in-memory data store."@,
        BaseView::Oci("redis:7"@),
        seq!["6379:6379"@],
        seq![],
        seq![],
        seq![],
        )
    } else if i == 25 {
        entry_view(
        "dragonfly"@,
        "service"@,
        "DragonflyDB 1.40 — Redis-compatible in-memory store."@,
        BaseView::Oci("ghcr.io/dragonflydb/dragonfly:v1.40.1"@),
        seq!["6379:6379"@],
        seq![],
        seq![],
        seq![],
        )
    } else if i == 26 {
        entry_view(
        "nginx"@,
        "web"@,
        "nginx web server."@,
        BaseView::Oci("nginx:stable-alpine"@),
        seq!["8080:80"@],
        seq![],
        seq![],
        seq![],
        )
    } else if i == 27 {
        entry_view(
        "apache"@,
        "web"@,
        "Apache httpd web server."@,
        BaseView::Oci("httpd:2.4-alpine"@),
        seq!["8080:80"@],
        seq![],
        seq![],
        seq![],
        )
    } else if i == 28 {
        entry_view(
        "frankenphp"@,
        "web"@,
        "FrankenPHP — PHP app server built on Caddy (HTTP/2, worker mode)."@,
        BaseView::Oci("dunglas/frankenphp"@),
        seq!["8080:80"@, "8443:443"@],
        seq![],
        seq![],
        seq![],
        )
    } else if i == 29 {
        entry_view(
        "caddy"@,
        "web"@,
        "Caddy web server (automatic HTTPS)."@,
        BaseView::Oci("caddy:2-alpine"@),
        seq!["8080:80"@, "8443:443"@],
        seq![],
        seq![],
        seq![],
        )
    } else if i == 30 {
        entry_view(
        "nix"@,
        "runtime"@,
        "Nix package manager (nixos/nix) — build anything."@,
        BaseView::Oci("nixos/nix"@),
        seq![],
        seq![],
        seq![],
        seq![],
        )
    } else if i == 31 {
        entry_view(
        "docker"@,
        "runtime"@,
        "Docker-in-Docker daemon."@,
        BaseView::Oci("docker:dind"@),
        seq![],
        seq!["DOCKER_TLS_CERTDIR="@],
        seq![],
        seq![],
        )
    } else if i == 32 {
        entry_view(
        "freebsd"@,
        "os"@,
        "FreeBSD userland (bundled image)."@,
        BaseView::Freebsd,
        seq![],
        seq![],
        seq![],
        seq![],
        )
    } else {
        entry_view(
        "netbsd"@,
        "os"@,
        "NetBSD (current) userland (bundled image)."@,
        BaseView::Netbsd,
        seq![],
        seq![],
        seq![],
        seq![],
        )
    }
}

/// The built-in catalog, in display order.
pub open spec fn catalog_view() -> Seq<FlavorView> {
    Seq::new(34, |i: int| catalog_entry(i))
}

/// The built-in catalog. Each entry maps to a ready base plus sensible
/// defaults; heavier stacks add provisioning commands.
#[verifier::rlimit(100)]
pub fn catalog() -> (r: Vec<CatalogFlavor>)
    ensures
        r@.len() == catalog_view().len(),
        forall|i: int| 0 <= i < r@.len() ==> (#[trigger] r@[i])@ == catalog_view()[i],
{
    let mut v: Vec<CatalogFlavor> = Vec::new();
    v.push(entry(
        "node",
        "language",
        "Node.js 22 runtime (npm, corepack).",
        Base::Oci("node:22"),
        Vec::new(),
        Vec::new(),
        Vec::new(),
        Vec::new(),
    ));
    assert(v@[0]@ =~~= catalog_entry(0));
    v.push(entry(
        "python",
        "language",
        "Python 3.12 with the uv package manager.",
        Base::Oci("python:3.12-slim"),
        Vec::new(),
        Vec::new(),
        Vec::new(),
        vstd::slice::slice_to_vec(&["pip install --no-cache-dir uv 2>/dev/null || (apt-get update && apt-get install -y curl && curl -LsSf https://astral.sh/uv/install.sh | sh)"]),
    ));
    assert(v@[1]@ =~~= catalog_entry(1));
    v.push(entry(
        "php",
        "language",
        "PHP 8.3 CLI with Composer.",
        Base::Oci("php:8.3-cli"),
        Vec::new(),
        Vec::new(),
        Vec::new(),
        vstd::slice::slice_to_vec(&["command -v composer >/dev/null || (curl -sS https://getcomposer.org/installer | php -- --install-dir=/usr/local/bin --filename=composer)"]),
    ));
    assert(v@[2]@ =~~= catalog_entry(2));
    v.push(entry(
        "laravel",
        "language",
        "PHP 8.3 + Composer + Node for Laravel apps.",
        Base::Oci("php:8.3-cli"),
        vstd::slice::slice_to_vec(&["8000:8000"]),
        Vec::new(),
        Vec::new(),
        vstd::slice::slice_to_vec(&["apt-get update && apt-get install -y git unzip curl libzip-dev nodejs npm", "docker-php-ext-install zip pdo pdo_mysql >/dev/null 2>&1 || true", "curl -sS https://getcomposer.org/installer | php -- --install-dir=/usr/local/bin --filename=composer"]),
    ));
    assert(v@[3]@ =~~= catalog_entry(3));
    v.push(entry(
        "symfony",
        "language",
        "PHP 8.3 + Composer + Symfony CLI.",
        Base::Oci("php:8.3-cli"),
        vstd::slice::slice_to_vec(&["8000:8000"]),
        Vec::new(),
        Vec::new(),
        vstd::slice::slice_to_vec(&["apt-get update && apt-get install -y git unzip curl", "curl -sS https://getcomposer.org/installer | php -- --install-dir=/usr/local/bin --filename=composer", "curl -1sLf https://get.symfony.com/cli/installer | bash || true"]),
    ));
    assert(v@[4]@ =~~= catalog_entry(4));
    v.push(entry(
        "elixir",
        "language",
        "Elixir/Erlang (mix, hex).",
        Base::Oci("elixir:1.17"),
        Vec::new(),
        Vec::new(),
        Vec::new(),
        vstd::slice::slice_to_vec(&["mix local.hex --force >/dev/null 2>&1 || true", "mix local.rebar --force >/dev/null 2>&1 || true"]),
    ));
    assert(v@[5]@ =~~= catalog_entry(5));
    v.push(entry(
        "phoenix",
        "language",
        "Elixir + Phoenix web framework (mix phx.new).",
        Base::Oci("elixir:1.17"),
        vstd::slice::slice_to_vec(&["4000:4000"]),
        Vec::new(),
        Vec::new(),
        vstd::slice::slice_to_vec(&["mix local.hex --force >/dev/null 2>&1 || true", "mix local.rebar --force >/dev/null 2>&1 || true", "mix archive.install hex phx_new --force >/dev/null 2>&1 || true"]),
    ));
    assert(v@[6]@ =~~= catalog_entry(6));
    v.push(entry(
        "gleam",
        "language",
        "Gleam 1.18 on the BEAM (official image).",
        Base::Oci("ghcr.io/gleam-lang/gleam:v1.18.1-erlang"),
        Vec::new(),
        Vec::new(),
        Vec::new(),
        Vec::new(),
    ));
    assert(v@[7]@ =~~= catalog_entry(7));
    v.push(entry(
        "uv",
        "language",
        "Python 3.13 with uv 0.12 (Astral's installer/resolver).",
        Base::Oci("ghcr.io/astral-sh/uv:0.12.5-python3.13-trixie"),
        Vec::new(),
        Vec::new(),
        Vec::new(),
        Vec::new(),
    ));
    assert(v@[8]@ =~~= catalog_entry(8));
    v.push(entry(
        "mise",
        "language",
        "mise — one runtime manager for node, python, go, rust…",
        Base::Oci("ghcr.io/jdx/mise:2026.8.8"),
        Vec::new(),
        Vec::new(),
        Vec::new(),
        Vec::new(),
    ));
    assert(v@[9]@ =~~= catalog_entry(9));
    v.push(entry(
        "clojure",
        "language",
        "Clojure with the official CLI tools.",
        Base::Oci("clojure:temurin-21-tools-deps"),
        Vec::new(),
        Vec::new(),
        Vec::new(),
        Vec::new(),
    ));
    assert(v@[10]@ =~~= catalog_entry(10));
    v.push(entry(
        "codex",
        "ai",
        "OpenAI Codex CLI coding agent.",
        Base::Oci(AGENT_BASE_IMAGE),
        Vec::new(),
        Vec::new(),
        Vec::new(),
        vstd::slice::slice_to_vec(&[GH_CLI_STEP, DOCKER_ENGINE_STEP, NIX_ENGINE_STEP, "apt-get update && apt-get install -y git", "npm install -g @openai/codex"]),
    ));
    assert(v@[11]@ =~~= catalog_entry(11));
    v.push(entry(
        "gemini",
        "ai",
        "Gemini CLI — Google's terminal coding agent.",
        Base::Oci(AGENT_BASE_IMAGE),
        Vec::new(),
        Vec::new(),
        Vec::new(),
        vstd::slice::slice_to_vec(&[GH_CLI_STEP, DOCKER_ENGINE_STEP, NIX_ENGINE_STEP, "apt-get update && apt-get install -y git ripgrep", "npm install -g @google/gemini-cli"]),
    ));
    assert(v@[12]@ =~~= catalog_entry(12));
    v.push(entry(
        "kilo",
        "ai",
        "Kilo Code — terminal AI coding agent.",
        Base::Oci(AGENT_BASE_IMAGE),
        Vec::new(),
        Vec::new(),
        Vec::new(),
        vstd::slice::slice_to_vec(&[GH_CLI_STEP, DOCKER_ENGINE_STEP, NIX_ENGINE_STEP, "apt-get update && apt-get install -y git", "npm install -g @kilocode/cli"]),
    ));
    assert(v@[13]@ =~~= catalog_entry(13));
    v.push(entry(
        "qwen",
        "ai",
        "Qwen Code — Alibaba's terminal coding agent.",
        Base::Oci(AGENT_BASE_IMAGE),
        Vec::new(),
        Vec::new(),
        Vec::new(),
        vstd::slice::slice_to_vec(&[GH_CLI_STEP, DOCKER_ENGINE_STEP, NIX_ENGINE_STEP, "apt-get update && apt-get install -y git", "npm install -g @qwen-code/qwen-code"]),
    ));
    assert(v@[14]@ =~~= catalog_entry(14));
    v.push(entry(
        "kiro-cli",
        "ai",
        "Kiro CLI — AWS's agentic coding CLI.",
        Base::Oci(AGENT_BASE_IMAGE),
        Vec::new(),
        Vec::new(),
        Vec::new(),
        vstd::slice::slice_to_vec(&[GH_CLI_STEP, DOCKER_ENGINE_STEP, NIX_ENGINE_STEP, "apt-get update && apt-get install -y git curl unzip", "curl -fsSL https://cli.kiro.dev/install | bash -s -- --force", "ln -sf \"$HOME/.local/bin/kiro-cli\" /usr/local/bin/kiro-cli"]),
    ));
    assert(v@[15]@ =~~= catalog_entry(15));
    v.push(entry(
        "opencode",
        "ai",
        "OpenCode — open-source terminal AI coding agent.",
        Base::Oci(AGENT_BASE_IMAGE),
        Vec::new(),
        Vec::new(),
        Vec::new(),
        vstd::slice::slice_to_vec(&[GH_CLI_STEP, DOCKER_ENGINE_STEP, NIX_ENGINE_STEP, "apt-get update && apt-get install -y git curl", "npm install -g opencode-ai || curl -fsSL https://opencode.ai/install | bash"]),
    ));
    assert(v@[16]@ =~~= catalog_entry(16));
    v.push(entry(
        "crush",
        "ai",
        "Crush — Charm's glamourous terminal AI coding agent.",
        Base::Oci(AGENT_BASE_IMAGE),
        Vec::new(),
        Vec::new(),
        Vec::new(),
        vstd::slice::slice_to_vec(&[GH_CLI_STEP, DOCKER_ENGINE_STEP, NIX_ENGINE_STEP, "apt-get update && apt-get install -y git curl", "npm install -g @charmland/crush"]),
    ));
    assert(v@[17]@ =~~= catalog_entry(17));
    v.push(entry(
        "copilot",
        "ai",
        "GitHub Copilot CLI coding agent.",
        Base::Oci(AGENT_BASE_IMAGE),
        Vec::new(),
        Vec::new(),
        Vec::new(),
        vstd::slice::slice_to_vec(&[GH_CLI_STEP, DOCKER_ENGINE_STEP, NIX_ENGINE_STEP, "apt-get update && apt-get install -y git", "npm install -g @github/copilot"]),
    ));
    assert(v@[18]@ =~~= catalog_entry(18));
    v.push(entry(
        "openclaw",
        "ai",
        "OpenClaw — personal AI assistant / multi-channel gateway.",
        Base::Oci(AGENT_BASE_IMAGE),
        Vec::new(),
        Vec::new(),
        Vec::new(),
        vstd::slice::slice_to_vec(&[GH_CLI_STEP, DOCKER_ENGINE_STEP, NIX_ENGINE_STEP, "apt-get update && apt-get install -y git ripgrep", "npm install -g openclaw"]),
    ));
    assert(v@[19]@ =~~= catalog_entry(19));
    v.push(entry(
        "nanoclaw",
        "ai",
        "nanoclaw — containerised AI assistant (needs Docker; run ./nanoclaw.sh).",
        Base::Oci("docker:dind"),
        Vec::new(),
        vstd::slice::slice_to_vec(&["DOCKER_TLS_CERTDIR="]),
        Vec::new(),
        vstd::slice::slice_to_vec(&["apk add --no-cache git nodejs npm curl bash >/dev/null 2>&1 || (apt-get update && apt-get install -y git nodejs npm curl bash)", GH_CLI_STEP, "npm install -g pnpm", "git clone --depth 1 https://github.com/nanocoai/nanoclaw.git /opt/nanoclaw", "echo 'cd /opt/nanoclaw && ./nanoclaw.sh' > /etc/bsdkrun-motd"]),
    ));
    assert(v@[20]@ =~~= catalog_entry(20));
    v.push(entry(
        "postgres",
        "service",
        "PostgreSQL 16 (user postgres / password secret).",
        Base::Oci("postgres:16"),
        vstd::slice::slice_to_vec(&["5432:5432"]),
        vstd::slice::slice_to_vec(&["POSTGRES_PASSWORD=secret", "POSTGRES_USER=postgres"]),
        Vec::new(),
        Vec::new(),
    ));
    assert(v@[21]@ =~~= catalog_entry(21));
    v.push(entry(
        "mariadb",
        "service",
        "MariaDB 11 (root password secret).",
        Base::Oci("mariadb:11"),
        vstd::slice::slice_to_vec(&["3306:3306"]),
        vstd::slice::slice_to_vec(&["MARIADB_ROOT_PASSWORD=secret"]),
        Vec::new(),
        Vec::new(),
    ));
    assert(v@[22]@ =~~= catalog_entry(22));
    v.push(entry(
        "mysql",
        "service",
        "MySQL 8 (root password secret).",
        Base::Oci("mysql:8"),
        vstd::slice::slice_to_vec(&["3306:3306"]),
        vstd::slice::slice_to_vec(&["MYSQL_ROOT_PASSWORD=secret"]),
        Vec::new(),
        Vec::new(),
    ));
    assert(v@[23]@ =~~= catalog_entry(23));
    v.push(entry(
        "redis",
        "service",
        "Redis 7 in-memory data store.",
        Base::Oci("redis:7"),
        vstd::slice::slice_to_vec(&["6379:6379"]),
        Vec::new(),
        Vec::new(),
        Vec::new(),
    ));
    assert(v@[24]@ =~~= catalog_entry(24));
    v.push(entry(
        "dragonfly",
        "service",
        "DragonflyDB 1.40 — Redis-compatible in-memory store.",
        Base::Oci("ghcr.io/dragonflydb/dragonfly:v1.40.1"),
        vstd::slice::slice_to_vec(&["6379:6379"]),
        Vec::new(),
        Vec::new(),
        Vec::new(),
    ));
    assert(v@[25]@ =~~= catalog_entry(25));
    v.push(entry(
        "nginx",
        "web",
        "nginx web server.",
        Base::Oci("nginx:stable-alpine"),
        vstd::slice::slice_to_vec(&["8080:80"]),
        Vec::new(),
        Vec::new(),
        Vec::new(),
    ));
    assert(v@[26]@ =~~= catalog_entry(26));
    v.push(entry(
        "apache",
        "web",
        "Apache httpd web server.",
        Base::Oci("httpd:2.4-alpine"),
        vstd::slice::slice_to_vec(&["8080:80"]),
        Vec::new(),
        Vec::new(),
        Vec::new(),
    ));
    assert(v@[27]@ =~~= catalog_entry(27));
    v.push(entry(
        "frankenphp",
        "web",
        "FrankenPHP — PHP app server built on Caddy (HTTP/2, worker mode).",
        Base::Oci("dunglas/frankenphp"),
        vstd::slice::slice_to_vec(&["8080:80", "8443:443"]),
        Vec::new(),
        Vec::new(),
        Vec::new(),
    ));
    assert(v@[28]@ =~~= catalog_entry(28));
    v.push(entry(
        "caddy",
        "web",
        "Caddy web server (automatic HTTPS).",
        Base::Oci("caddy:2-alpine"),
        vstd::slice::slice_to_vec(&["8080:80", "8443:443"]),
        Vec::new(),
        Vec::new(),
        Vec::new(),
    ));
    assert(v@[29]@ =~~= catalog_entry(29));
    v.push(entry(
        "nix",
        "runtime",
        "Nix package manager (nixos/nix) — build anything.",
        Base::Oci("nixos/nix"),
        Vec::new(),
        Vec::new(),
        Vec::new(),
        Vec::new(),
    ));
    assert(v@[30]@ =~~= catalog_entry(30));
    v.push(entry(
        "docker",
        "runtime",
        "Docker-in-Docker daemon.",
        Base::Oci("docker:dind"),
        Vec::new(),
        vstd::slice::slice_to_vec(&["DOCKER_TLS_CERTDIR="]),
        Vec::new(),
        Vec::new(),
    ));
    assert(v@[31]@ =~~= catalog_entry(31));
    v.push(entry(
        "freebsd",
        "os",
        "FreeBSD userland (bundled image).",
        Base::Freebsd,
        Vec::new(),
        Vec::new(),
        Vec::new(),
        Vec::new(),
    ));
    assert(v@[32]@ =~~= catalog_entry(32));
    v.push(entry(
        "netbsd",
        "os",
        "NetBSD (current) userland (bundled image).",
        Base::Netbsd,
        Vec::new(),
        Vec::new(),
        Vec::new(),
        Vec::new(),
    ));
    assert(v@[33]@ =~~= catalog_entry(33));
    assert(v@.len() == catalog_view().len());
    assert forall|i: int| 0 <= i < v@.len() implies (#[trigger] v@[i])@ == catalog_view()[i] by {
        assert(0 <= i < 35);
    }
    v
}

/// The first catalog entry with this name.
pub open spec fn find_in(cat: Seq<FlavorView>, name: Seq<char>) -> Option<FlavorView>
    decreases cat.len(),
{
    if cat.len() == 0 {
        None
    } else if cat[0].name == name {
        Some(cat[0])
    } else {
        find_in(cat.drop_first(), name)
    }
}

pub open spec fn opt_flavor_view(o: Option<CatalogFlavor>) -> Option<FlavorView> {
    match o {
        Some(c) => Some(c@),
        None => None,
    }
}

/// Look up a catalog flavor by exact name.
pub fn find(name: &str) -> (r: Option<CatalogFlavor>)
    ensures
        opt_flavor_view(r) == find_in(catalog_view(), name@),
{
    let mut cat = catalog();
    let n = cat.len();
    let mut i: usize = 0;
    assert(catalog_view().subrange(0, n as int) =~= catalog_view());
    while i < n
        invariant
            i <= n,
            n == cat@.len(),
            n == catalog_view().len(),
            forall|k: int| 0 <= k < n ==> (#[trigger] cat@[k])@ == catalog_view()[k],
            find_in(catalog_view(), name@) == find_in(catalog_view().subrange(i as int, n as int), name@),
        decreases n - i,
    {
        let ghost rest = catalog_view().subrange(i as int, n as int);
        assert(rest[0] == cat@[i as int]@);
        assert(rest.drop_first() =~= catalog_view().subrange(i + 1, n as int));
        if str_eq(cat[i].name, name) {
            return Some(cat.remove(i));
        }
        i += 1;
    }
    None
}

/// The published image for a flavor, e.g.
/// `ghcr.io/tsirysndr/bsdkrun-flavor-codex:latest`.
pub open spec fn prebuilt_spec(flavor: Seq<char>) -> Seq<char> {
    PREBUILT_REGISTRY@ + "/bsdkrun-flavor-"@ + flavor + ":latest"@
}

/// The published image for a flavor.
pub fn prebuilt_image(flavor: &str) -> (r: String)
    ensures
        r@ == prebuilt_spec(flavor@),
{
    let mut v: Vec<char> = Vec::new();
    push_str(&mut v, PREBUILT_REGISTRY);
    push_str(&mut v, "/bsdkrun-flavor-");
    push_str(&mut v, flavor);
    push_str(&mut v, ":latest");
    assert(v@ =~= prebuilt_spec(flavor@));
    string_of(v.as_slice())
}

/// One line per item: `prefix`, the item, `suffix`, in order.
pub open spec fn each_line(prefix: Seq<char>, items: Seq<Seq<char>>, suffix: Seq<char>) -> Seq<char>
    decreases items.len(),
{
    if items.len() == 0 {
        Seq::empty()
    } else {
        each_line(prefix, items.drop_last(), suffix) + prefix + items.last() + suffix
    }
}

fn push_each_line(v: &mut Vec<char>, prefix: &str, items: &Vec<&'static str>, suffix: &str)
    ensures
        final(v)@ == old(v)@ + each_line(prefix@, strs(items@), suffix@),
{
    let ghost start = v@;
    let mut i: usize = 0;
    assert(strs(items@).subrange(0, 0) =~= Seq::<Seq<char>>::empty());
    assert(v@ =~= start + each_line(prefix@, strs(items@).subrange(0, 0), suffix@));
    while i < items.len()
        invariant
            i <= items.len(),
            v@ == start + each_line(prefix@, strs(items@).subrange(0, i as int), suffix@),
        decreases items.len() - i,
    {
        push_str(v, prefix);
        push_str(v, items[i]);
        push_str(v, suffix);
        let ghost next = strs(items@).subrange(0, i + 1);
        assert(next.drop_last() =~= strs(items@).subrange(0, i as int));
        assert(next.last() == items@[i as int]@);
        i += 1;
        assert(v@ =~= start + each_line(prefix@, strs(items@).subrange(0, i as int), suffix@));
    }
    assert(strs(items@).subrange(0, i as int) =~= strs(items@));
}

/// The first line of every generated Dockerfile.
pub const DOCKERFILE_BANNER: &'static str = "# Generated by `bsdkrun flavor __dockerfiles` \u{2014} do not edit.\n";

/// The note closing the Dockerfile of a flavor that also installs Nix
/// packages, which need a booted VM.
pub const NIX_NOTE: &'static str = "# This flavor also installs Nix packages, which need a booted VM;\n# `bsdkrun` finishes those on first launch.\n";

/// The `SHELL` instruction and the comment explaining it.
pub const SHELL_PREAMBLE: &'static str = "# bsdkrun runs a guest as root with no service manager, and provisions\n# in one shell per step \u{2014} the same shape as these RUN layers.\nSHELL [\"/bin/sh\", \"-c\"]\n";

/// The header of a flavor's Dockerfile: what it is, where it is published,
/// and the base it starts `FROM`.
pub open spec fn dockerfile_header(c: FlavorView, image: Seq<char>) -> Seq<char> {
    DOCKERFILE_BANNER@ + "#\n# Flavor: "@ + c.name + " ("@ + c.category + ")\n# "@ + c.description
        + "\n#\n# Published as "@ + prebuilt_spec(c.name) + " and pulled by `bsdkrun flavor run "@ + c.name
        + "`,\n# so a first launch does not have to provision a VM.\nFROM "@ + image + "\n\n"@
        + SHELL_PREAMBLE@
}

/// A flavor's Dockerfile: the header, one `ENV` per variable (then a blank
/// line), one `RUN` layer per provisioning step, and the Nix note.
pub open spec fn dockerfile_text(c: FlavorView, image: Seq<char>) -> Seq<char> {
    dockerfile_header(c, image) + each_line("ENV "@, c.env, "\n"@) + (if c.env.len() > 0 {
        "\n"@
    } else {
        Seq::empty()
    }) + each_line("RUN "@, c.provision, "\n\n"@) + (if c.nix.len() > 0 {
        NIX_NOTE@
    } else {
        Seq::empty()
    })
}

/// The Dockerfile of a flavor: only an OCI-based one with something to
/// provision has one.
pub open spec fn dockerfile_spec(c: Option<FlavorView>) -> Option<Seq<char>> {
    match c {
        Some(c) => match c.base {
            BaseView::Oci(image) => if c.provision.len() == 0 && c.nix.len() == 0 {
                None
            } else {
                Some(dockerfile_text(c, image))
            },
            _ => None,
        },
        None => None,
    }
}

pub open spec fn opt_string_view(o: Option<String>) -> Option<Seq<char>> {
    match o {
        Some(s) => Some(s@),
        None => None,
    }
}

fn dockerfile_of(c: &CatalogFlavor) -> (r: Option<String>)
    ensures
        opt_string_view(r) == dockerfile_spec(Some(c@)),
{
    let image = match c.base {
        Base::Oci(image) => image,
        _ => return None,
    };
    if c.provision.len() == 0 && c.nix.len() == 0 {
        return None;
    }
    let mut v: Vec<char> = Vec::new();
    push_str(&mut v, DOCKERFILE_BANNER);
    push_str(&mut v, "#\n# Flavor: ");
    push_str(&mut v, c.name);
    push_str(&mut v, " (");
    push_str(&mut v, c.category);
    push_str(&mut v, ")\n# ");
    push_str(&mut v, c.description);
    push_str(&mut v, "\n#\n# Published as ");
    let published = prebuilt_image(c.name);
    push_str(&mut v, published.as_str());
    push_str(&mut v, " and pulled by `bsdkrun flavor run ");
    push_str(&mut v, c.name);
    push_str(&mut v, "`,\n# so a first launch does not have to provision a VM.\nFROM ");
    push_str(&mut v, image);
    push_str(&mut v, "\n\n");
    push_str(&mut v, SHELL_PREAMBLE);
    let ghost head = v@;
    assert(head =~= dockerfile_header(c@, image@));
    push_each_line(&mut v, "ENV ", &c.env, "\n");
    if c.env.len() > 0 {
        push_str(&mut v, "\n");
    }
    let ghost mid = v@;
    push_each_line(&mut v, "RUN ", &c.provision, "\n\n");
    if c.nix.len() > 0 {
        push_str(&mut v, NIX_NOTE);
    }
    assert(v@ =~= dockerfile_text(c@, image@));
    Some(string_of(v.as_slice()))
}

/// The Dockerfile that reproduces a catalog flavor's provisioning; `None`
/// for an unknown flavor, one with nothing to provision, or a BSD one.
pub fn dockerfile(flavor: &str) -> (r: Option<String>)
    ensures
        opt_string_view(r) == dockerfile_spec(find_in(catalog_view(), flavor@)),
{
    match find(flavor) {
        Some(c) => dockerfile_of(&c),
        None => None,
    }
}

/// The steps every agent sandbox shares, in the order they appear in each
/// agent flavor's Dockerfile.
pub open spec fn shared_agent_steps() -> Seq<Seq<char>> {
    seq![GH_CLI_STEP@, DOCKER_ENGINE_STEP@, NIX_ENGINE_STEP@]
}

/// The explanation under the banner of the shared agent base.
pub const BASE_NOTE: &'static str = "#\n# Not a flavor: this is the layer prefix every agent sandbox shares,\n# built once in CI so the per-agent images can read it from cache\n# instead of installing gh, Docker and Nix nine times over.\nFROM ";

/// The shared agent base, as a Dockerfile.
pub open spec fn base_dockerfile_spec() -> Seq<char> {
    DOCKERFILE_BANNER@ + BASE_NOTE@ + AGENT_BASE_IMAGE@ + "\n\nSHELL [\"/bin/sh\", \"-c\"]\n\n"@ + each_line(
        "RUN "@,
        shared_agent_steps(),
        "\n\n"@,
    )
}

/// The base every node-based agent flavor starts with, as a Dockerfile.
pub fn base_dockerfile() -> (r: String)
    ensures
        r@ == base_dockerfile_spec(),
{
    let mut v: Vec<char> = Vec::new();
    push_str(&mut v, DOCKERFILE_BANNER);
    push_str(&mut v, BASE_NOTE);
    push_str(&mut v, AGENT_BASE_IMAGE);
    push_str(&mut v, "\n\nSHELL [\"/bin/sh\", \"-c\"]\n\n");
    let steps: Vec<&'static str> = vstd::slice::slice_to_vec(&[GH_CLI_STEP, DOCKER_ENGINE_STEP, NIX_ENGINE_STEP]);
    assert(strs(steps@) =~= shared_agent_steps());
    push_each_line(&mut v, "RUN ", &steps, "\n\n");
    assert(v@ =~= base_dockerfile_spec());
    string_of(v.as_slice())
}

/// Every catalog flavor that has a Dockerfile, as `(name, contents)`, in
/// catalog order.
pub open spec fn flavor_dockerfiles(cat: Seq<FlavorView>) -> Seq<(Seq<char>, Seq<char>)>
    decreases cat.len(),
{
    if cat.len() == 0 {
        Seq::empty()
    } else {
        let rest = flavor_dockerfiles(cat.drop_last());
        match dockerfile_spec(find_in(catalog_view(), cat.last().name)) {
            Some(d) => rest.push((cat.last().name, d)),
            None => rest,
        }
    }
}

/// Every flavor that has a Dockerfile, then the shared agent base.
pub open spec fn dockerfiles_spec() -> Seq<(Seq<char>, Seq<char>)> {
    flavor_dockerfiles(catalog_view()).push((BASE_IMAGE_DIR@, base_dockerfile_spec()))
}

/// Every flavor that has a Dockerfile, as `(name, contents)`, plus the
/// shared agent base.
pub fn dockerfiles() -> (r: Vec<(&'static str, String)>)
    ensures
        r@.map_values(|e: (&'static str, String)| (e.0@, e.1@)) == dockerfiles_spec(),
{
    let cat = catalog();
    let mut out: Vec<(&'static str, String)> = Vec::new();
    let mut i: usize = 0;
    while i < cat.len()
        invariant
            i <= cat@.len(),
            cat@.len() == catalog_view().len(),
            forall|k: int| 0 <= k < cat@.len() ==> (#[trigger] cat@[k])@ == catalog_view()[k],
            out@.map_values(|e: (&'static str, String)| (e.0@, e.1@)) == flavor_dockerfiles(
                catalog_view().subrange(0, i as int),
            ),
        decreases cat.len() - i,
    {
        let ghost pre = catalog_view().subrange(0, i + 1);
        assert(pre.drop_last() =~= catalog_view().subrange(0, i as int));
        assert(pre.last() == cat@[i as int]@);
        let name = cat[i].name;
        match dockerfile(name) {
            Some(d) => {
                out.push((name, d));
            },
            None => {},
        }
        i += 1;
        assert(out@.map_values(|e: (&'static str, String)| (e.0@, e.1@)) =~= flavor_dockerfiles(
            catalog_view().subrange(0, i as int),
        ));
    }
    assert(catalog_view().subrange(0, i as int) =~= catalog_view());
    out.push((BASE_IMAGE_DIR, base_dockerfile()));
    assert(out@.map_values(|e: (&'static str, String)| (e.0@, e.1@)) =~= dockerfiles_spec());
    out
}

/// A user-defined flavor, from a `flavors.toml`: the catalog's shape, owned,
/// with the base written as a plain string (an OCI ref, or `freebsd` /
/// `netbsd`).
#[derive(Clone, Debug)]
pub struct UserFlavor {
    pub name: String,
    pub category: String,
    pub description: String,
    /// OCI image ref, or `freebsd` / `netbsd`.
    pub base: String,
    pub ports: Vec<String>,
    pub env: Vec<String>,
    pub nix: Vec<String>,
    /// Shell commands run in the guest after boot, in order.
    pub provision: Vec<String>,
}

/// A user flavor as a value.
#[verifier::ext_equal]
pub struct UserFlavorView {
    pub name: Seq<char>,
    pub category: Seq<char>,
    pub description: Seq<char>,
    pub base: Seq<char>,
    pub ports: Seq<Seq<char>>,
    pub env: Seq<Seq<char>>,
    pub nix: Seq<Seq<char>>,
    pub provision: Seq<Seq<char>>,
}

pub open spec fn owned_strs(v: Seq<String>) -> Seq<Seq<char>> {
    v.map_values(|s: String| s@)
}

impl View for UserFlavor {
    type V = UserFlavorView;

    open spec fn view(&self) -> UserFlavorView {
        UserFlavorView {
            name: self.name@,
            category: self.category@,
            description: self.description@,
            base: self.base@,
            ports: owned_strs(self.ports@),
            env: owned_strs(self.env@),
            nix: owned_strs(self.nix@),
            provision: owned_strs(self.provision@),
        }
    }
}

pub open spec fn user_views(v: Seq<UserFlavor>) -> Seq<UserFlavorView> {
    v.map_values(|u: UserFlavor| u@)
}

/// The guest kind for a user flavor's base.
pub open spec fn user_kind(base: Seq<char>) -> Seq<char> {
    if base == "freebsd"@ {
        "freebsd"@
    } else if base == "netbsd"@ {
        "netbsd"@
    } else {
        "linux"@
    }
}

impl UserFlavor {
    /// The guest kind the launcher should use (`linux` / `freebsd` / `netbsd`).
    pub fn kind(&self) -> (r: &'static str)
        ensures
            r@ == user_kind(self.base@),
    {
        if str_eq(self.base.as_str(), "freebsd") {
            "freebsd"
        } else if str_eq(self.base.as_str(), "netbsd") {
            "netbsd"
        } else {
            "linux"
        }
    }

    /// How this flavor is built, for the UI: `nix`, `system`, or `docker`.
    pub fn method(&self) -> (r: &'static str)
        ensures
            r@ == method_spec(
                user_kind(self.base@) == "linux"@,
                self.nix@.len() == 0,
                self.provision@.len() == 0,
            ),
    {
        let k = self.kind();
        method_for(str_eq(k, "linux"), self.nix.len() == 0, self.provision.len() == 0)
    }
}

/// The first user flavor with this name.
pub open spec fn find_user_in(fs: Seq<UserFlavorView>, name: Seq<char>) -> Option<UserFlavorView>
    decreases fs.len(),
{
    if fs.len() == 0 {
        None
    } else if fs[0].name == name {
        Some(fs[0])
    } else {
        find_user_in(fs.drop_first(), name)
    }
}

pub open spec fn opt_user_view(o: Option<UserFlavor>) -> Option<UserFlavorView> {
    match o {
        Some(u) => Some(u@),
        None => None,
    }
}

/// Look up a user-defined flavor by exact name among those loaded.
pub fn find_user(flavors: Vec<UserFlavor>, name: &str) -> (r: Option<UserFlavor>)
    ensures
        opt_user_view(r) == find_user_in(user_views(flavors@), name@),
{
    let mut fs = flavors;
    let n = fs.len();
    let ghost all = user_views(fs@);
    let mut i: usize = 0;
    assert(all.subrange(0, n as int) =~= all);
    while i < n
        invariant
            i <= n,
            n == fs@.len(),
            all == user_views(fs@),
            all == user_views(flavors@),
            find_user_in(all, name@) == find_user_in(all.subrange(i as int, n as int), name@),
        decreases n - i,
    {
        let ghost rest = all.subrange(i as int, n as int);
        assert(rest[0] == fs@[i as int]@);
        assert(rest.drop_first() =~= all.subrange(i + 1, n as int));
        if str_eq(fs[i].name.as_str(), name) {
            let ghost cur = fs@[i as int];
            assert(user_views(fs@)[i as int] == cur@);
            assert(find_user_in(rest, name@) == Some(cur@));
            let u = fs.remove(i);
            assert(u == cur);
            return Some(u);
        }
        i += 1;
    }
    None
}

/// The loaded user flavors that count: a nameless entry, or one named like a
/// catalog flavor, is dropped (the catalog wins).
pub open spec fn usable_user_flavors(fs: Seq<UserFlavorView>) -> Seq<UserFlavorView> {
    fs.filter(|u: UserFlavorView| u.name.len() > 0 && find_in(catalog_view(), u.name) is None)
}

/// Keep the user flavors that count, in file order.
pub fn user_flavors(parsed: Vec<UserFlavor>) -> (r: Vec<UserFlavor>)
    ensures
        user_views(r@) == usable_user_flavors(user_views(parsed@)),
{
    let mut out: Vec<UserFlavor> = Vec::new();
    let mut src = parsed;
    let ghost all = user_views(src@);
    let n = src.len();
    let mut i: usize = 0;
    assert(all.subrange(0, n as int) =~= all);
    while i < n
        invariant
            i <= n,
            src@.len() == n - i,
            all.len() == n,
            user_views(src@) == all.subrange(i as int, n as int),
            user_views(out@) == usable_user_flavors(all.subrange(0, i as int)),
        decreases n - i,
    {
        let ghost before = src@;
        proof {
            lemma_views_remove_first(before);
        }
        let u = src.remove(0);
        assert(user_views(src@) =~= all.subrange(i + 1, n as int));
        assert(u@ == all[i as int]);
        let keep = u.name.as_str().unicode_len() > 0 && find(u.name.as_str()).is_none();
        proof {
            let pre = all.subrange(0, i + 1);
            assert(pre.drop_last() =~= all.subrange(0, i as int));
            assert(pre.last() == u@);
            reveal(Seq::filter);
        }
        if keep {
            out.push(u);
        }
        i += 1;
        assert(user_views(out@) =~= usable_user_flavors(all.subrange(0, i as int)));
    }
    assert(all.subrange(0, n as int) =~= all);
    out
}

/// Why a user flavor cannot be saved.
#[derive(Clone, Copy, Debug, PartialEq, Eq)]
pub enum FlavorFileError {
    /// The flavor has no name.
    NameRequired,
    /// The name is that of a built-in catalog flavor.
    BuiltinName,
}

/// The flavors without the one named `name`.
pub open spec fn without_name(fs: Seq<UserFlavorView>, name: Seq<char>) -> Seq<UserFlavorView> {
    fs.filter(|u: UserFlavorView| u.name != name)
}

/// Insert `x` into `s` after every entry whose name sorts no later than its
/// own: a step of a stable sort by name.
pub open spec fn insert_by_name(s: Seq<UserFlavorView>, x: UserFlavorView) -> Seq<UserFlavorView>
    decreases s.len(),
{
    if s.len() == 0 {
        seq![x]
    } else if !lex_le(s.last().name, x.name) {
        insert_by_name(s.drop_last(), x).push(s.last())
    } else {
        s.push(x)
    }
}

/// A stable sort by name.
pub open spec fn sort_by_name(s: Seq<UserFlavorView>) -> Seq<UserFlavorView>
    decreases s.len(),
{
    if s.len() == 0 {
        s
    } else {
        insert_by_name(sort_by_name(s.drop_last()), s.last())
    }
}

proof fn lemma_views_remove_first(s: Seq<UserFlavor>)
    requires
        s.len() > 0,
    ensures
        user_views(s.remove(0)) == user_views(s).drop_first(),
        user_views(s)[0] == s[0]@,
{
    assert(user_views(s.remove(0)) =~= user_views(s).drop_first());
}

fn remove_named(list: Vec<UserFlavor>, name: &str) -> (r: Vec<UserFlavor>)
    ensures
        user_views(r@) == without_name(user_views(list@), name@),
{
    let mut out: Vec<UserFlavor> = Vec::new();
    let mut src = list;
    let ghost all = user_views(src@);
    let n = src.len();
    let mut i: usize = 0;
    assert(all.subrange(0, n as int) =~= all);
    while i < n
        invariant
            i <= n,
            src@.len() == n - i,
            all.len() == n,
            user_views(src@) == all.subrange(i as int, n as int),
            user_views(out@) == without_name(all.subrange(0, i as int), name@),
        decreases n - i,
    {
        let ghost before = src@;
        proof {
            lemma_views_remove_first(before);
        }
        let u = src.remove(0);
        assert(user_views(src@) =~= all.subrange(i + 1, n as int));
        assert(u@ == all[i as int]);
        let keep = !str_eq(u.name.as_str(), name);
        proof {
            let pre = all.subrange(0, i + 1);
            assert(pre.drop_last() =~= all.subrange(0, i as int));
            assert(pre.last() == u@);
            reveal(Seq::filter);
        }
        if keep {
            out.push(u);
        }
        i += 1;
        assert(user_views(out@) =~= without_name(all.subrange(0, i as int), name@));
    }
    assert(all.subrange(0, n as int) =~= all);
    out
}

fn insert_sorted(list: Vec<UserFlavor>, x: UserFlavor) -> (r: Vec<UserFlavor>)
    ensures
        user_views(r@) == insert_by_name(user_views(list@), x@),
    decreases list@.len(),
{
    let mut l = list;
    if l.len() == 0 {
        l.push(x);
        assert(user_views(l@) =~= seq![x@]);
        return l;
    }
    let ghost before = user_views(l@);
    let last = l.pop().unwrap();
    assert(user_views(l@) =~= before.drop_last());
    let a = crate::text::chars_of(last.name.as_str());
    let b = crate::text::chars_of(x.name.as_str());
    if !lex_le_exec(&a, &b) {
        let mut r = insert_sorted(l, x);
        let ghost mid = user_views(r@);
        r.push(last);
        assert(user_views(r@) =~= mid.push(last@));
        r
    } else {
        l.push(last);
        l.push(x);
        assert(user_views(l@) =~= before.push(x@));
        l
    }
}

/// Add or replace a user flavor in the list a `flavors.toml` holds: any entry
/// of that name is dropped, the flavor appended, and the whole list sorted by
/// name (stably). An empty name, or a catalog flavor's name, is refused.
pub fn upsert_user_flavor(list: Vec<UserFlavor>, flavor: UserFlavor) -> (r: Result<
    Vec<UserFlavor>,
    FlavorFileError,
>)
    ensures
        flavor.name@.len() == 0 ==> r == Err::<Vec<UserFlavor>, FlavorFileError>(
            FlavorFileError::NameRequired,
        ),
        flavor.name@.len() > 0 && find_in(catalog_view(), flavor.name@) is Some ==> r == Err::<
            Vec<UserFlavor>,
            FlavorFileError,
        >(FlavorFileError::BuiltinName),
        flavor.name@.len() > 0 && find_in(catalog_view(), flavor.name@) is None ==> (r matches Ok(
            v,
        ) && user_views(v@) == sort_by_name(
            without_name(user_views(list@), flavor.name@).push(flavor@),
        )),
{
    if flavor.name.as_str().unicode_len() == 0 {
        return Err(FlavorFileError::NameRequired);
    }
    if find(flavor.name.as_str()).is_some() {
        return Err(FlavorFileError::BuiltinName);
    }
    let kept = remove_named(list, flavor.name.as_str());
    let ghost unsorted = user_views(kept@).push(flavor@);
    let mut all = kept;
    all.push(flavor);
    assert(user_views(all@) =~= unsorted);
    // A stable insertion sort by name.
    let n = all.len();
    let mut sorted: Vec<UserFlavor> = Vec::new();
    let mut src = all;
    let mut i: usize = 0;
    assert(unsorted.subrange(0, 0) =~= Seq::<UserFlavorView>::empty());
    assert(unsorted.subrange(0, n as int) =~= unsorted);
    while i < n
        invariant
            i <= n,
            src@.len() == n - i,
            unsorted.len() == n,
            user_views(src@) == unsorted.subrange(i as int, n as int),
            user_views(sorted@) == sort_by_name(unsorted.subrange(0, i as int)),
        decreases n - i,
    {
        let ghost before = src@;
        proof {
            lemma_views_remove_first(before);
        }
        let u = src.remove(0);
        assert(user_views(src@) =~= unsorted.subrange(i + 1, n as int));
        assert(u@ == unsorted[i as int]);
        let ghost pre = unsorted.subrange(0, i + 1);
        assert(pre.drop_last() =~= unsorted.subrange(0, i as int));
        sorted = insert_sorted(sorted, u);
        i += 1;
    }
    assert(unsorted.subrange(0, n as int) =~= unsorted);
    Ok(sorted)
}

/// Remove a user flavor from the list a `flavors.toml` holds; the flag says
/// whether one was there (and so whether the file needs writing).
pub fn remove_user_flavor(list: Vec<UserFlavor>, name: &str) -> (r: (Vec<UserFlavor>, bool))
    ensures
        user_views(r.0@) == without_name(user_views(list@), name@),
        r.1 == (r.0@.len() != list@.len()),
{
    let before = list.len();
    let kept = remove_named(list, name);
    let changed = kept.len() != before;
    (kept, changed)
}

proof fn lemma_insert_contains(s: Seq<UserFlavorView>, x: UserFlavorView, y: UserFlavorView)
    ensures
        insert_by_name(s, x).contains(y) <==> (s.contains(y) || y == x),
    decreases s.len(),
{
    if s.len() == 0 {
        assert(insert_by_name(s, x) =~= seq![x]);
        if insert_by_name(s, x).contains(y) {
            let k = choose|k: int| 0 <= k < insert_by_name(s, x).len() && insert_by_name(s, x)[k] == y;
            assert(k == 0);
        }
        if y == x {
            assert(insert_by_name(s, x)[0] == x);
        }
    } else if !lex_le(s.last().name, x.name) {
        let r = insert_by_name(s.drop_last(), x);
        lemma_insert_contains(s.drop_last(), x, y);
        assert(insert_by_name(s, x) == r.push(s.last()));
        if r.push(s.last()).contains(y) {
            let k = choose|k: int| 0 <= k < r.push(s.last()).len() && r.push(s.last())[k] == y;
            if k < r.len() {
                assert(r[k] == y);
                assert(r.contains(y));
                if s.drop_last().contains(y) {
                    let j = choose|j: int| 0 <= j < s.drop_last().len() && s.drop_last()[j] == y;
                    assert(s[j] == y);
                }
            } else {
                assert(s[s.len() - 1] == y);
            }
        }
        if s.contains(y) {
            let j = choose|j: int| 0 <= j < s.len() && s[j] == y;
            if j < s.len() - 1 {
                assert(s.drop_last()[j] == y);
                assert(s.drop_last().contains(y));
                let k = choose|k: int| 0 <= k < r.len() && r[k] == y;
                assert(r.push(s.last())[k] == y);
            } else {
                assert(r.push(s.last())[r.len() as int] == y);
            }
        }
        if y == x {
            assert(r.contains(y));
            let k = choose|k: int| 0 <= k < r.len() && r[k] == y;
            assert(r.push(s.last())[k] == y);
        }
    } else {
        assert(insert_by_name(s, x) == s.push(x));
        if s.push(x).contains(y) {
            let k = choose|k: int| 0 <= k < s.push(x).len() && s.push(x)[k] == y;
            if k < s.len() {
                assert(s[k] == y);
            }
        }
        if s.contains(y) {
            let j = choose|j: int| 0 <= j < s.len() && s[j] == y;
            assert(s.push(x)[j] == y);
        }
        if y == x {
            assert(s.push(x)[s.len() as int] == y);
        }
    }
}

proof fn lemma_sort_contains(s: Seq<UserFlavorView>, y: UserFlavorView)
    ensures
        sort_by_name(s).contains(y) <==> s.contains(y),
    decreases s.len(),
{
    if s.len() > 0 {
        lemma_sort_contains(s.drop_last(), y);
        lemma_insert_contains(sort_by_name(s.drop_last()), s.last(), y);
        if s.contains(y) {
            let j = choose|j: int| 0 <= j < s.len() && s[j] == y;
            if j < s.len() - 1 {
                assert(s.drop_last()[j] == y);
            }
        }
        if s.drop_last().contains(y) {
            let j = choose|j: int| 0 <= j < s.drop_last().len() && s.drop_last()[j] == y;
            assert(s[j] == y);
        }
    }
}

proof fn lemma_find_user_in(s: Seq<UserFlavorView>, n: Seq<char>)
    ensures
        find_user_in(s, n) matches Some(v) ==> s.contains(v) && v.name == n,
        find_user_in(s, n) is None ==> forall|k: int| 0 <= k < s.len() ==> (#[trigger] s[k]).name != n,
    decreases s.len(),
{
    if s.len() > 0 {
        lemma_find_user_in(s.drop_first(), n);
        if s[0].name != n {
            if find_user_in(s.drop_first(), n) is Some {
                let v = find_user_in(s.drop_first(), n)->0;
                let k = choose|k: int| 0 <= k < s.drop_first().len() && s.drop_first()[k] == v;
                assert(s[k + 1] == v);
            } else {
                assert forall|k: int| 0 <= k < s.len() implies (#[trigger] s[k]).name != n by {
                    if k > 0 {
                        assert(s[k] == s.drop_first()[k - 1]);
                    }
                }
            }
        } else {
            assert(s.contains(s[0]));
        }
    }
}

/// After a flavor is saved, looking its name up gives it back, and every
/// entry of another name is still in the file.
pub proof fn saved_flavor_is_found(list: Seq<UserFlavorView>, f: UserFlavorView)
    ensures
        find_user_in(sort_by_name(without_name(list, f.name).push(f)), f.name) == Some(f),
        forall|u: UserFlavorView|
            list.contains(u) && u.name != f.name ==> #[trigger] sort_by_name(
                without_name(list, f.name).push(f),
            ).contains(u),
{
    let kept = without_name(list, f.name);
    let all = kept.push(f);
    let r = sort_by_name(all);
    lemma_sort_contains(all, f);
    assert(all[all.len() - 1] == f);
    lemma_find_user_in(r, f.name);
    match find_user_in(r, f.name) {
        Some(v) => {
            lemma_sort_contains(all, v);
            let k = choose|k: int| 0 <= k < all.len() && all[k] == v;
            if k < kept.len() {
                assert(kept[k] == v);
                kept.lemma_filter_pred(|u: UserFlavorView| u.name != f.name, k);
            }
        },
        None => {
            let k = choose|k: int| 0 <= k < r.len() && r[k] == f;
            assert(r[k].name != f.name);
        },
    }
    assert forall|u: UserFlavorView| list.contains(u) && u.name != f.name implies #[trigger] r.contains(u) by {
        let j = choose|j: int| 0 <= j < list.len() && list[j] == u;
        list.lemma_filter_contains(|u: UserFlavorView| u.name != f.name, j);
        let k = choose|k: int| 0 <= k < kept.len() && kept[k] == u;
        assert(all[k] == u);
        lemma_sort_contains(all, u);
    }
}

/// After a flavor is removed, no entry of that name is left, and every entry
/// of another name stays.
pub proof fn removed_flavor_is_gone(list: Seq<UserFlavorView>, name: Seq<char>)
    ensures
        find_user_in(without_name(list, name), name) is None,
        forall|u: UserFlavorView|
            list.contains(u) && u.name != name ==> #[trigger] without_name(list, name).contains(u),
{
    let kept = without_name(list, name);
    lemma_find_user_in(kept, name);
    if find_user_in(kept, name) is Some {
        let v = find_user_in(kept, name)->0;
        let k = choose|k: int| 0 <= k < kept.len() && kept[k] == v;
        kept.lemma_filter_pred(|u: UserFlavorView| u.name != name, k);
        assert(false);
    }
    assert forall|u: UserFlavorView| list.contains(u) && u.name != name implies #[trigger] kept.contains(u) by {
        let j = choose|j: int| 0 <= j < list.len() && list[j] == u;
        list.lemma_filter_contains(|u: UserFlavorView| u.name != name, j);
    }
}

/// No two catalog flavors share a name, so a lookup by name finds the one
/// flavor of that name.
#[verifier::rlimit(100)]
pub proof fn catalog_names_unique()
    ensures
        forall|i: int, j: int|
            0 <= i < j < catalog_view().len() ==> (#[trigger] catalog_view()[i]).name != (
            #[trigger] catalog_view()[j]).name,
{
    reveal_strlit("node");
    reveal_strlit("python");
    reveal_strlit("php");
    reveal_strlit("laravel");
    reveal_strlit("symfony");
    reveal_strlit("elixir");
    reveal_strlit("phoenix");
    reveal_strlit("gleam");
    reveal_strlit("uv");
    reveal_strlit("mise");
    reveal_strlit("clojure");
    reveal_strlit("codex");
    reveal_strlit("gemini");
    reveal_strlit("kilo");
    reveal_strlit("qwen");
    reveal_strlit("kiro-cli");
    reveal_strlit("opencode");
    reveal_strlit("crush");
    reveal_strlit("copilot");
    reveal_strlit("openclaw");
    reveal_strlit("nanoclaw");
    reveal_strlit("postgres");
    reveal_strlit("mariadb");
    reveal_strlit("mysql");
    reveal_strlit("redis");
    reveal_strlit("dragonfly");
    reveal_strlit("nginx");
    reveal_strlit("apache");
    reveal_strlit("frankenphp");
    reveal_strlit("caddy");
    reveal_strlit("nix");
    reveal_strlit("docker");
    reveal_strlit("freebsd");
    reveal_strlit("netbsd");
    assert forall|i: int, j: int|
        0 <= i < j < catalog_view().len() implies (#[trigger] catalog_view()[i]).name != (
        #[trigger] catalog_view()[j]).name by {
        let a = catalog_entry(i).name;
        let b = catalog_entry(j).name;
        // Each pair differs in length or at the position given.
        if i == 0 {
            if j == 1 { assert(a.len() != b.len()) }
            else if j == 2 { assert(a.len() != b.len()) }
            else if j == 3 { assert(a.len() != b.len()) }
            else if j == 4 { assert(a.len() != b.len()) }
            else if j == 5 { assert(a.len() != b.len()) }
            else if j == 6 { assert(a.len() != b.len()) }
            else if j == 7 { assert(a.len() != b.len()) }
            else if j == 8 { assert(a.len() != b.len()) }
            else if j == 9 { assert(a[0] != b[0]) }
            else if j == 10 { assert(a.len() != b.len()) }
            else if j == 11 { assert(a.len() != b.len()) }
            else if j == 12 { assert(a.len() != b.len()) }
            else if j == 13 { assert(a[0] != b[0]) }
            else if j == 14 { assert(a[0] != b[0]) }
            else if j == 15 { assert(a.len() != b.len()) }
            else if j == 16 { assert(a.len() != b.len()) }
            else if j == 17 { assert(a.len() != b.len()) }
            else if j == 18 { assert(a.len() != b.len()) }
            else if j == 19 { assert(a.len() != b.len()) }
            else if j == 20 { assert(a.len() != b.len()) }
            else if j == 21 { assert(a.len() != b.len()) }
            else if j == 22 { assert(a.len() != b.len()) }
            else if j == 23 { assert(a.len() != b.len()) }
            else if j == 24 { assert(a.len() != b.len()) }
            else if j == 25 { assert(a.len() != b.len()) }
            else if j == 26 { assert(a.len() != b.len()) }
            else if j == 27 { assert(a.len() != b.len()) }
            else if j == 28 { assert(a.len() != b.len()) }
            else if j == 29 { assert(a.len() != b.len()) }
            else if j == 30 { assert(a.len() != b.len()) }
            else if j == 31 { assert(a.len() != b.len()) }
            else if j == 32 { assert(a.len() != b.len()) }
            else if j == 33 { assert(a.len() != b.len()) }
        } else if i == 1 {
            if j == 2 { assert(a.len() != b.len()) }
            else if j == 3 { assert(a.len() != b.len()) }
            else if j == 4 { assert(a.len() != b.len()) }
            else if j == 5 { assert(a[0] != b[0]) }
            else if j == 6 { assert(a.len() != b.len()) }
            else if j == 7 { assert(a.len() != b.len()) }
            else if j == 8 { assert(a.len() != b.len()) }
            else if j == 9 { assert(a.len() != b.len()) }
            else if j == 10 { assert(a.len() != b.len()) }
            else if j == 11 { assert(a.len() != b.len()) }
            else if j == 12 { assert(a[0] != b[0]) }
            else if j == 13 { assert(a.len() != b.len()) }
            else if j == 14 { assert(a.len() != b.len()) }
            else if j == 15 { assert(a.len() != b.len()) }
            else if j == 16 { assert(a.len() != b.len()) }
            else if j == 17 { assert(a.len() != b.len()) }
            else if j == 18 { assert(a.len() != b.len()) }
            else if j == 19 { assert(a.len() != b.len()) }
            else if j == 20 { assert(a.len() != b.len()) }
            else if j == 21 { assert(a.len() != b.len()) }
            else if j == 22 { assert(a.len() != b.len()) }
            else if j == 23 { assert(a.len() != b.len()) }
            else if j == 24 { assert(a.len() != b.len()) }
            else if j == 25 { assert(a.len() != b.len()) }
            else if j == 26 { assert(a.len() != b.len()) }
            else if j == 27 { assert(a[0] != b[0]) }
            else if j == 28 { assert(a.len() != b.len()) }
            else if j == 29 { assert(a.len() != b.len()) }
            else if j == 30 { assert(a.len() != b.len()) }
            else if j == 31 { assert(a[0] != b[0]) }
            else if j == 32 { assert(a.len() != b.len()) }
            else if j == 33 { assert(a[0] != b[0]) }
        } else if i == 2 {
            if j == 3 { assert(a.len() != b.len()) }
            else if j == 4 { assert(a.len() != b.len()) }
            else if j == 5 { assert(a.len() != b.len()) }
            else if j == 6 { assert(a.len() != b.len()) }
            else if j == 7 { assert(a.len() != b.len()) }
            else if j == 8 { assert(a.len() != b.len()) }
            else if j == 9 { assert(a.len() != b.len()) }
            else if j == 10 { assert(a.len() != b.len()) }
            else if j == 11 { assert(a.len() != b.len()) }
            else if j == 12 { assert(a.len() != b.len()) }
            else if j == 13 { assert(a.len() != b.len()) }
            else if j == 14 { assert(a.len() != b.len()) }
            else if j == 15 { assert(a.len() != b.len()) }
            else if j == 16 { assert(a.len() != b.len()) }
            else if j == 17 { assert(a.len() != b.len()) }
            else if j == 18 { assert(a.len() != b.len()) }
            else if j == 19 { assert(a.len() != b.len()) }
            else if j == 20 { assert(a.len() != b.len()) }
            else if j == 21 { assert(a.len() != b.len()) }
            else if j == 22 { assert(a.len() != b.len()) }
            else if j == 23 { assert(a.len() != b.len()) }
            else if j == 24 { assert(a.len() != b.len()) }
            else if j == 25 { assert(a.len() != b.len()) }
            else if j == 26 { assert(a.len() != b.len()) }
            else if j == 27 { assert(a.len() != b.len()) }
            else if j == 28 { assert(a.len() != b.len()) }
            else if j == 29 { assert(a.len() != b.len()) }
            else if j == 30 { assert(a[0] != b[0]) }
            else if j == 31 { assert(a.len() != b.len()) }
            else if j == 32 { assert(a.len() != b.len()) }
            else if j == 33 { assert(a.len() != b.len()) }
        } else if i == 3 {
            if j == 4 { assert(a[0] != b[0]) }
            else if j == 5 { assert(a.len() != b.len()) }
            else if j == 6 { assert(a[0] != b[0]) }
            else if j == 7 { assert(a.len() != b.len()) }
            else if j == 8 { assert(a.len() != b.len()) }
            else if j == 9 { assert(a.len() != b.len()) }
            else if j == 10 { assert(a[0] != b[0]) }
            else if j == 11 { assert(a.len() != b.len()) }
            else if j == 12 { assert(a.len() != b.len()) }
            else if j == 13 { assert(a.len() != b.len()) }
            else if j == 14 { assert(a.len() != b.len()) }
            else if j == 15 { assert(a.len() != b.len()) }
            else if j == 16 { assert(a.len() != b.len()) }
            else if j == 17 { assert(a.len() != b.len()) }
            else if j == 18 { assert(a[0] != b[0]) }
            else if j == 19 { assert(a.len() != b.len()) }
            else if j == 20 { assert(a.len() != b.len()) }
            else if j == 21 { assert(a.len() != b.len()) }
            else if j == 22 { assert(a[0] != b[0]) }
            else if j == 23 { assert(a.len() != b.len()) }
            else if j == 24 { assert(a.len() != b.len()) }
            else if j == 25 { assert(a.len() != b.len()) }
            else if j == 26 { assert(a.len() != b.len()) }
            else if j == 27 { assert(a.len() != b.len()) }
            else if j == 28 { assert(a.len() != b.len()) }
            else if j == 29 { assert(a.len() != b.len()) }
            else if j == 30 { assert(a.len() != b.len()) }
            else if j == 31 { assert(a.len() != b.len()) }
            else if j == 32 { assert(a[0] != b[0]) }
            else if j == 33 { assert(a.len() != b.len()) }
        } else if i == 4 {
            if j == 5 { assert(a.len() != b.len()) }
            else if j == 6 { assert(a[0] != b[0]) }
            else if j == 7 { assert(a.len() != b.len()) }
            else if j == 8 { assert(a.len() != b.len()) }
            else if j == 9 { assert(a.len() != b.len()) }
            else if j == 10 { assert(a[0] != b[0]) }
            else if j == 11 { assert(a.len() != b.len()) }
            else if j == 12 { assert(a.len() != b.len()) }
            else if j == 13 { assert(a.len() != b.len()) }
            else if j == 14 { assert(a.len() != b.len()) }
            else if j == 15 { assert(a.len() != b.len()) }
            else if j == 16 { assert(a.len() != b.len()) }
            else if j == 17 { assert(a.len() != b.len()) }
            else if j == 18 { assert(a[0] != b[0]) }
            else if j == 19 { assert(a.len() != b.len()) }
            else if j == 20 { assert(a.len() != b.len()) }
            else if j == 21 { assert(a.len() != b.len()) }
            else if j == 22 { assert(a[0] != b[0]) }
            else if j == 23 { assert(a.len() != b.len()) }
            else if j == 24 { assert(a.len() != b.len()) }
            else if j == 25 { assert(a.len() != b.len()) }
            else if j == 26 { assert(a.len() != b.len()) }
            else if j == 27 { assert(a.len() != b.len()) }
            else if j == 28 { assert(a.len() != b.len()) }
            else if j == 29 { assert(a.len() != b.len()) }
            else if j == 30 { assert(a.len() != b.len()) }
            else if j == 31 { assert(a.len() != b.len()) }
            else if j == 32 { assert(a[0] != b[0]) }
            else if j == 33 { assert(a.len() != b.len()) }
        } else if i == 5 {
            if j == 6 { assert(a.len() != b.len()) }
            else if j == 7 { assert(a.len() != b.len()) }
            else if j == 8 { assert(a.len() != b.len()) }
            else if j == 9 { assert(a.len() != b.len()) }
            else if j == 10 { assert(a.len() != b.len()) }
            else if j == 11 { assert(a.len() != b.len()) }
            else if j == 12 { assert(a[0] != b[0]) }
            else if j == 13 { assert(a.len() != b.len()) }
            else if j == 14 { assert(a.len() != b.len()) }
            else if j == 15 { assert(a.len() != b.len()) }
            else if j == 16 { assert(a.len() != b.len()) }
            else if j == 17 { assert(a.len() != b.len()) }
            else if j == 18 { assert(a.len() != b.len()) }
            else if j == 19 { assert(a.len() != b.len()) }
            else if j == 20 { assert(a.len() != b.len()) }
            else if j == 21 { assert(a.len() != b.len()) }
            else if j == 22 { assert(a.len() != b.len()) }
            else if j == 23 { assert(a.len() != b.len()) }
            else if j == 24 { assert(a.len() != b.len()) }
            else if j == 25 { assert(a.len() != b.len()) }
            else if j == 26 { assert(a.len() != b.len()) }
            else if j == 27 { assert(a[0] != b[0]) }
            else if j == 28 { assert(a.len() != b.len()) }
            else if j == 29 { assert(a.len() != b.len()) }
            else if j == 30 { assert(a.len() != b.len()) }
            else if j == 31 { assert(a[0] != b[0]) }
            else if j == 32 { assert(a.len() != b.len()) }
            else if j == 33 { assert(a[0] != b[0]) }
        } else if i == 6 {
            if j == 7 { assert(a.len() != b.len()) }
            else if j == 8 { assert(a.len() != b.len()) }
            else if j == 9 { assert(a.len() != b.len()) }
            else if j == 10 { assert(a[0] != b[0]) }
            else if j == 11 { assert(a.len() != b.len()) }
            else if j == 12 { assert(a.len() != b.len()) }
            else if j == 13 { assert(a.len() != b.len()) }
            else if j == 14 { assert(a.len() != b.len()) }
            else if j == 15 { assert(a.len() != b.len()) }
            else if j == 16 { assert(a.len() != b.len()) }
            else if j == 17 { assert(a.len() != b.len()) }
            else if j == 18 { assert(a[0] != b[0]) }
            else if j == 19 { assert(a.len() != b.len()) }
            else if j == 20 { assert(a.len() != b.len()) }
            else if j == 21 { assert(a.len() != b.len()) }
            else if j == 22 { assert(a[0] != b[0]) }
            else if j == 23 { assert(a.len() != b.len()) }
            else if j == 24 { assert(a.len() != b.len()) }
            else if j == 25 { assert(a.len() != b.len()) }
            else if j == 26 { assert(a.len() != b.len()) }
            else if j == 27 { assert(a.len() != b.len()) }
            else if j == 28 { assert(a.len() != b.len()) }
            else if j == 29 { assert(a.len() != b.len()) }
            else if j == 30 { assert(a.len() != b.len()) }
            else if j == 31 { assert(a.len() != b.len()) }
            else if j == 32 { assert(a[0] != b[0]) }
            else if j == 33 { assert(a.len() != b.len()) }
        } else if i == 7 {
            if j == 8 { assert(a.len() != b.len()) }
            else if j == 9 { assert(a.len() != b.len()) }
            else if j == 10 { assert(a.len() != b.len()) }
            else if j == 11 { assert(a[0] != b[0]) }
            else if j == 12 { assert(a.len() != b.len()) }
            else if j == 13 { assert(a.len() != b.len()) }
            else if j == 14 { assert(a.len() != b.len()) }
            else if j == 15 { assert(a.len() != b.len()) }
            else if j == 16 { assert(a.len() != b.len()) }
            else if j == 17 { assert(a[0] != b[0]) }
            else if j == 18 { assert(a.len() != b.len()) }
            else if j == 19 { assert(a.len() != b.len()) }
            else if j == 20 { assert(a.len() != b.len()) }
            else if j == 21 { assert(a.len() != b.len()) }
            else if j == 22 { assert(a.len() != b.len()) }
            else if j == 23 { assert(a[0] != b[0]) }
            else if j == 24 { assert(a[0] != b[0]) }
            else if j == 25 { assert(a.len() != b.len()) }
            else if j == 26 { assert(a[0] != b[0]) }
            else if j == 27 { assert(a.len() != b.len()) }
            else if j == 28 { assert(a.len() != b.len()) }
            else if j == 29 { assert(a[0] != b[0]) }
            else if j == 30 { assert(a.len() != b.len()) }
            else if j == 31 { assert(a.len() != b.len()) }
            else if j == 32 { assert(a.len() != b.len()) }
            else if j == 33 { assert(a.len() != b.len()) }
        } else if i == 8 {
            if j == 9 { assert(a.len() != b.len()) }
            else if j == 10 { assert(a.len() != b.len()) }
            else if j == 11 { assert(a.len() != b.len()) }
            else if j == 12 { assert(a.len() != b.len()) }
            else if j == 13 { assert(a.len() != b.len()) }
            else if j == 14 { assert(a.len() != b.len()) }
            else if j == 15 { assert(a.len() != b.len()) }
            else if j == 16 { assert(a.len() != b.len()) }
            else if j == 17 { assert(a.len() != b.len()) }
            else if j == 18 { assert(a.len() != b.len()) }
            else if j == 19 { assert(a.len() != b.len()) }
            else if j == 20 { assert(a.len() != b.len()) }
            else if j == 21 { assert(a.len() != b.len()) }
            else if j == 22 { assert(a.len() != b.len()) }
            else if j == 23 { assert(a.len() != b.len()) }
            else if j == 24 { assert(a.len() != b.len()) }
            else if j == 25 { assert(a.len() != b.len()) }
            else if j == 26 { assert(a.len() != b.len()) }
            else if j == 27 { assert(a.len() != b.len()) }
            else if j == 28 { assert(a.len() != b.len()) }
            else if j == 29 { assert(a.len() != b.len()) }
            else if j == 30 { assert(a.len() != b.len()) }
            else if j == 31 { assert(a.len() != b.len()) }
            else if j == 32 { assert(a.len() != b.len()) }
            else if j == 33 { assert(a.len() != b.len()) }
        } else if i == 9 {
            if j == 10 { assert(a.len() != b.len()) }
            else if j == 11 { assert(a.len() != b.len()) }
            else if j == 12 { assert(a.len() != b.len()) }
            else if j == 13 { assert(a[0] != b[0]) }
            else if j == 14 { assert(a[0] != b[0]) }
            else if j == 15 { assert(a.len() != b.len()) }
            else if j == 16 { assert(a.len() != b.len()) }
            else if j == 17 { assert(a.len() != b.len()) }
            else if j == 18 { assert(a.len() != b.len()) }
            else if j == 19 { assert(a.len() != b.len()) }
            else if j == 20 { assert(a.len() != b.len()) }
            else if j == 21 { assert(a.len() != b.len()) }
            else if j == 22 { assert(a.len() != b.len()) }
            else if j == 23 { assert(a.len() != b.len()) }
            else if j == 24 { assert(a.len() != b.len()) }
            else if j == 25 { assert(a.len() != b.len()) }
            else if j == 26 { assert(a.len() != b.len()) }
            else if j == 27 { assert(a.len() != b.len()) }
            else if j == 28 { assert(a.len() != b.len()) }
            else if j == 29 { assert(a.len() != b.len()) }
            else if j == 30 { assert(a.len() != b.len()) }
            else if j == 31 { assert(a.len() != b.len()) }
            else if j == 32 { assert(a.len() != b.len()) }
            else if j == 33 { assert(a.len() != b.len()) }
        } else if i == 10 {
            if j == 11 { assert(a.len() != b.len()) }
            else if j == 12 { assert(a.len() != b.len()) }
            else if j == 13 { assert(a.len() != b.len()) }
            else if j == 14 { assert(a.len() != b.len()) }
            else if j == 15 { assert(a.len() != b.len()) }
            else if j == 16 { assert(a.len() != b.len()) }
            else if j == 17 { assert(a.len() != b.len()) }
            else if j == 18 { assert(a[1] != b[1]) }
            else if j == 19 { assert(a.len() != b.len()) }
            else if j == 20 { assert(a.len() != b.len()) }
            else if j == 21 { assert(a.len() != b.len()) }
            else if j == 22 { assert(a[0] != b[0]) }
            else if j == 23 { assert(a.len() != b.len()) }
            else if j == 24 { assert(a.len() != b.len()) }
            else if j == 25 { assert(a.len() != b.len()) }
            else if j == 26 { assert(a.len() != b.len()) }
            else if j == 27 { assert(a.len() != b.len()) }
            else if j == 28 { assert(a.len() != b.len()) }
            else if j == 29 { assert(a.len() != b.len()) }
            else if j == 30 { assert(a.len() != b.len()) }
            else if j == 31 { assert(a.len() != b.len()) }
            else if j == 32 { assert(a[0] != b[0]) }
            else if j == 33 { assert(a.len() != b.len()) }
        } else if i == 11 {
            if j == 12 { assert(a.len() != b.len()) }
            else if j == 13 { assert(a.len() != b.len()) }
            else if j == 14 { assert(a.len() != b.len()) }
            else if j == 15 { assert(a.len() != b.len()) }
            else if j == 16 { assert(a.len() != b.len()) }
            else if j == 17 { assert(a[1] != b[1]) }
            else if j == 18 { assert(a.len() != b.len()) }
            else if j == 19 { assert(a.len() != b.len()) }
            else if j == 20 { assert(a.len() != b.len()) }
            else if j == 21 { assert(a.len() != b.len()) }
            else if j == 22 { assert(a.len() != b.len()) }
            else if j == 23 { assert(a[0] != b[0]) }
            else if j == 24 { assert(a[0] != b[0]) }
            else if j == 25 { assert(a.len() != b.len()) }
            else if j == 26 { assert(a[0] != b[0]) }
            else if j == 27 { assert(a.len() != b.len()) }
            else if j == 28 { assert(a.len() != b.len()) }
            else if j == 29 { assert(a[1] != b[1]) }
            else if j == 30 { assert(a.len() != b.len()) }
            else if j == 31 { assert(a.len() != b.len()) }
            else if j == 32 { assert(a.len() != b.len()) }
            else if j == 33 { assert(a.len() != b.len()) }
        } else if i == 12 {
            if j == 13 { assert(a.len() != b.len()) }
            else if j == 14 { assert(a.len() != b.len()) }
            else if j == 15 { assert(a.len() != b.len()) }
            else if j == 16 { assert(a.len() != b.len()) }
            else if j == 17 { assert(a.len() != b.len()) }
            else if j == 18 { assert(a.len() != b.len()) }
            else if j == 19 { assert(a.len() != b.len()) }
            else if j == 20 { assert(a.len() != b.len()) }
            else if j == 21 { assert(a.len() != b.len()) }
            else if j == 22 { assert(a.len() != b.len()) }
            else if j == 23 { assert(a.len() != b.len()) }
            else if j == 24 { assert(a.len() != b.len()) }
            else if j == 25 { assert(a.len() != b.len()) }
            else if j == 26 { assert(a.len() != b.len()) }
            else if j == 27 { assert(a[0] != b[0]) }
            else if j == 28 { assert(a.len() != b.len()) }
            else if j == 29 { assert(a.len() != b.len()) }
            else if j == 30 { assert(a.len() != b.len()) }
            else if j == 31 { assert(a[0] != b[0]) }
            else if j == 32 { assert(a.len() != b.len()) }
            else if j == 33 { assert(a[0] != b[0]) }
        } else if i == 13 {
            if j == 14 { assert(a[0] != b[0]) }
            else if j == 15 { assert(a.len() != b.len()) }
            else if j == 16 { assert(a.len() != b.len()) }
            else if j == 17 { assert(a.len() != b.len()) }
            else if j == 18 { assert(a.len() != b.len()) }
            else if j == 19 { assert(a.len() != b.len()) }
            else if j == 20 { assert(a.len() != b.len()) }
            else if j == 21 { assert(a.len() != b.len()) }
            else if j == 22 { assert(a.len() != b.len()) }
            else if j == 23 { assert(a.len() != b.len()) }
            else if j == 24 { assert(a.len() != b.len()) }
            else if j == 25 { assert(a.len() != b.len()) }
            else if j == 26 { assert(a.len() != b.len()) }
            else if j == 27 { assert(a.len() != b.len()) }
            else if j == 28 { assert(a.len() != b.len()) }
            else if j == 29 { assert(a.len() != b.len()) }
            else if j == 30 { assert(a.len() != b.len()) }
            else if j == 31 { assert(a.len() != b.len()) }
            else if j == 32 { assert(a.len() != b.len()) }
            else if j == 33 { assert(a.len() != b.len()) }
        } else if i == 14 {
            if j == 15 { assert(a.len() != b.len()) }
            else if j == 16 { assert(a.len() != b.len()) }
            else if j == 17 { assert(a.len() != b.len()) }
            else if j == 18 { assert(a.len() != b.len()) }
            else if j == 19 { assert(a.len() != b.len()) }
            else if j == 20 { assert(a.len() != b.len()) }
            else if j == 21 { assert(a.len() != b.len()) }
            else if j == 22 { assert(a.len() != b.len()) }
            else if j == 23 { assert(a.len() != b.len()) }
            else if j == 24 { assert(a.len() != b.len()) }
            else if j == 25 { assert(a.len() != b.len()) }
            else if j == 26 { assert(a.len() != b.len()) }
            else if j == 27 { assert(a.len() != b.len()) }
            else if j == 28 { assert(a.len() != b.len()) }
            else if j == 29 { assert(a.len() != b.len()) }
            else if j == 30 { assert(a.len() != b.len()) }
            else if j == 31 { assert(a.len() != b.len()) }
            else if j == 32 { assert(a.len() != b.len()) }
            else if j == 33 { assert(a.len() != b.len()) }
        } else if i == 15 {
            if j == 16 { assert(a[0] != b[0]) }
            else if j == 17 { assert(a.len() != b.len()) }
            else if j == 18 { assert(a.len() != b.len()) }
            else if j == 19 { assert(a[0] != b[0]) }
            else if j == 20 { assert(a[0] != b[0]) }
            else if j == 21 { assert(a[0] != b[0]) }
            else if j == 22 { assert(a.len() != b.len()) }
            else if j == 23 { assert(a.len() != b.len()) }
            else if j == 24 { assert(a.len() != b.len()) }
            else if j == 25 { assert(a.len() != b.len()) }
            else if j == 26 { assert(a.len() != b.len()) }
            else if j == 27 { assert(a.len() != b.len()) }
            else if j == 28 { assert(a.len() != b.len()) }
            else if j == 29 { assert(a.len() != b.len()) }
            else if j == 30 { assert(a.len() != b.len()) }
            else if j == 31 { assert(a.len() != b.len()) }
            else if j == 32 { assert(a.len() != b.len()) }
            else if j == 33 { assert(a.len() != b.len()) }
        } else if i == 16 {
            if j == 17 { assert(a.len() != b.len()) }
            else if j == 18 { assert(a.len() != b.len()) }
            else if j == 19 { assert(a[5] != b[5]) }
            else if j == 20 { assert(a[0] != b[0]) }
            else if j == 21 { assert(a[0] != b[0]) }
            else if j == 22 { assert(a.len() != b.len()) }
            else if j == 23 { assert(a.len() != b.len()) }
            else if j == 24 { assert(a.len() != b.len()) }
            else if j == 25 { assert(a.len() != b.len()) }
            else if j == 26 { assert(a.len() != b.len()) }
            else if j == 27 { assert(a.len() != b.len()) }
            else if j == 28 { assert(a.len() != b.len()) }
            else if j == 29 { assert(a.len() != b.len()) }
            else if j == 30 { assert(a.len() != b.len()) }
            else if j == 31 { assert(a.len() != b.len()) }
            else if j == 32 { assert(a.len() != b.len()) }
            else if j == 33 { assert(a.len() != b.len()) }
        } else if i == 17 {
            if j == 18 { assert(a.len() != b.len()) }
            else if j == 19 { assert(a.len() != b.len()) }
            else if j == 20 { assert(a.len() != b.len()) }
            else if j == 21 { assert(a.len() != b.len()) }
            else if j == 22 { assert(a.len() != b.len()) }
            else if j == 23 { assert(a[0] != b[0]) }
            else if j == 24 { assert(a[0] != b[0]) }
            else if j == 25 { assert(a.len() != b.len()) }
            else if j == 26 { assert(a[0] != b[0]) }
            else if j == 27 { assert(a.len() != b.len()) }
            else if j == 28 { assert(a.len() != b.len()) }
            else if j == 29 { assert(a[1] != b[1]) }
            else if j == 30 { assert(a.len() != b.len()) }
            else if j == 31 { assert(a.len() != b.len()) }
            else if j == 32 { assert(a.len() != b.len()) }
            else if j == 33 { assert(a.len() != b.len()) }
        } else if i == 18 {
            if j == 19 { assert(a.len() != b.len()) }
            else if j == 20 { assert(a.len() != b.len()) }
            else if j == 21 { assert(a.len() != b.len()) }
            else if j == 22 { assert(a[0] != b[0]) }
            else if j == 23 { assert(a.len() != b.len()) }
            else if j == 24 { assert(a.len() != b.len()) }
            else if j == 25 { assert(a.len() != b.len()) }
            else if j == 26 { assert(a.len() != b.len()) }
            else if j == 27 { assert(a.len() != b.len()) }
            else if j == 28 { assert(a.len() != b.len()) }
            else if j == 29 { assert(a.len() != b.len()) }
            else if j == 30 { assert(a.len() != b.len()) }
            else if j == 31 { assert(a.len() != b.len()) }
            else if j == 32 { assert(a[0] != b[0]) }
            else if j == 33 { assert(a.len() != b.len()) }
        } else if i == 19 {
            if j == 20 { assert(a[0] != b[0]) }
            else if j == 21 { assert(a[0] != b[0]) }
            else if j == 22 { assert(a.len() != b.len()) }
            else if j == 23 { assert(a.len() != b.len()) }
            else if j == 24 { assert(a.len() != b.len()) }
            else if j == 25 { assert(a.len() != b.len()) }
            else if j == 26 { assert(a.len() != b.len()) }
            else if j == 27 { assert(a.len() != b.len()) }
            else if j == 28 { assert(a.len() != b.len()) }
            else if j == 29 { assert(a.len() != b.len()) }
            else if j == 30 { assert(a.len() != b.len()) }
            else if j == 31 { assert(a.len() != b.len()) }
            else if j == 32 { assert(a.len() != b.len()) }
            else if j == 33 { assert(a.len() != b.len()) }
        } else if i == 20 {
            if j == 21 { assert(a[0] != b[0]) }
            else if j == 22 { assert(a.len() != b.len()) }
            else if j == 23 { assert(a.len() != b.len()) }
            else if j == 24 { assert(a.len() != b.len()) }
            else if j == 25 { assert(a.len() != b.len()) }
            else if j == 26 { assert(a.len() != b.len()) }
            else if j == 27 { assert(a.len() != b.len()) }
            else if j == 28 { assert(a.len() != b.len()) }
            else if j == 29 { assert(a.len() != b.len()) }
            else if j == 30 { assert(a.len() != b.len()) }
            else if j == 31 { assert(a.len() != b.len()) }
            else if j == 32 { assert(a.len() != b.len()) }
            else if j == 33 { assert(a.len() != b.len()) }
        } else if i == 21 {
            if j == 22 { assert(a.len() != b.len()) }
            else if j == 23 { assert(a.len() != b.len()) }
            else if j == 24 { assert(a.len() != b.len()) }
            else if j == 25 { assert(a.len() != b.len()) }
            else if j == 26 { assert(a.len() != b.len()) }
            else if j == 27 { assert(a.len() != b.len()) }
            else if j == 28 { assert(a.len() != b.len()) }
            else if j == 29 { assert(a.len() != b.len()) }
            else if j == 30 { assert(a.len() != b.len()) }
            else if j == 31 { assert(a.len() != b.len()) }
            else if j == 32 { assert(a.len() != b.len()) }
            else if j == 33 { assert(a.len() != b.len()) }
        } else if i == 22 {
            if j == 23 { assert(a.len() != b.len()) }
            else if j == 24 { assert(a.len() != b.len()) }
            else if j == 25 { assert(a.len() != b.len()) }
            else if j == 26 { assert(a.len() != b.len()) }
            else if j == 27 { assert(a.len() != b.len()) }
            else if j == 28 { assert(a.len() != b.len()) }
            else if j == 29 { assert(a.len() != b.len()) }
            else if j == 30 { assert(a.len() != b.len()) }
            else if j == 31 { assert(a.len() != b.len()) }
            else if j == 32 { assert(a[0] != b[0]) }
            else if j == 33 { assert(a.len() != b.len()) }
        } else if i == 23 {
            if j == 24 { assert(a[0] != b[0]) }
            else if j == 25 { assert(a.len() != b.len()) }
            else if j == 26 { assert(a[0] != b[0]) }
            else if j == 27 { assert(a.len() != b.len()) }
            else if j == 28 { assert(a.len() != b.len()) }
            else if j == 29 { assert(a[0] != b[0]) }
            else if j == 30 { assert(a.len() != b.len()) }
            else if j == 31 { assert(a.len() != b.len()) }
            else if j == 32 { assert(a.len() != b.len()) }
            else if j == 33 { assert(a.len() != b.len()) }
        } else if i == 24 {
            if j == 25 { assert(a.len() != b.len()) }
            else if j == 26 { assert(a[0] != b[0]) }
            else if j == 27 { assert(a.len() != b.len()) }
            else if j == 28 { assert(a.len() != b.len()) }
            else if j == 29 { assert(a[0] != b[0]) }
            else if j == 30 { assert(a.len() != b.len()) }
            else if j == 31 { assert(a.len() != b.len()) }
            else if j == 32 { assert(a.len() != b.len()) }
            else if j == 33 { assert(a.len() != b.len()) }
        } else if i == 25 {
            if j == 26 { assert(a.len() != b.len()) }
            else if j == 27 { assert(a.len() != b.len()) }
            else if j == 28 { assert(a.len() != b.len()) }
            else if j == 29 { assert(a.len() != b.len()) }
            else if j == 30 { assert(a.len() != b.len()) }
            else if j == 31 { assert(a.len() != b.len()) }
            else if j == 32 { assert(a.len() != b.len()) }
            else if j == 33 { assert(a.len() != b.len()) }
        } else if i == 26 {
            if j == 27 { assert(a.len() != b.len()) }
            else if j == 28 { assert(a.len() != b.len()) }
            else if j == 29 { assert(a[0] != b[0]) }
            else if j == 30 { assert(a.len() != b.len()) }
            else if j == 31 { assert(a.len() != b.len()) }
            else if j == 32 { assert(a.len() != b.len()) }
            else if j == 33 { assert(a.len() != b.len()) }
        } else if i == 27 {
            if j == 28 { assert(a.len() != b.len()) }
            else if j == 29 { assert(a.len() != b.len()) }
            else if j == 30 { assert(a.len() != b.len()) }
            else if j == 31 { assert(a[0] != b[0]) }
            else if j == 32 { assert(a.len() != b.len()) }
            else if j == 33 { assert(a[0] != b[0]) }
        } else if i == 28 {
            if j == 29 { assert(a.len() != b.len()) }
            else if j == 30 { assert(a.len() != b.len()) }
            else if j == 31 { assert(a.len() != b.len()) }
            else if j == 32 { assert(a.len() != b.len()) }
            else if j == 33 { assert(a.len() != b.len()) }
        } else if i == 29 {
            if j == 30 { assert(a.len() != b.len()) }
            else if j == 31 { assert(a.len() != b.len()) }
            else if j == 32 { assert(a.len() != b.len()) }
            else if j == 33 { assert(a.len() != b.len()) }
        } else if i == 30 {
            if j == 31 { assert(a.len() != b.len()) }
            else if j == 32 { assert(a.len() != b.len()) }
            else if j == 33 { assert(a.len() != b.len()) }
        } else if i == 31 {
            if j == 32 { assert(a.len() != b.len()) }
            else if j == 33 { assert(a[0] != b[0]) }
        } else if i == 32 {
            if j == 33 { assert(a.len() != b.len()) }
        }
    }
}

/// The config directory a user `flavors.toml` sits under:
/// `$XDG_CONFIG_HOME`, else `$HOME/.config`.
pub open spec fn config_dir(xdg: Option<Seq<char>>, home: Option<Seq<char>>) -> Option<Seq<char>> {
    match xdg {
        Some(x) => Some(x),
        None => match home {
            Some(h) => Some(crate::db::join(h, ".config"@)),
            None => None,
        },
    }
}

pub open spec fn opt_chars(o: Option<String>) -> Option<Seq<char>> {
    match o {
        Some(s) => Some(s@),
        None => None,
    }
}

/// The files user flavors are read from, in the order they are tried:
/// `$BSDKRUN_FLAVORS_FILE` when set, `bsdkrun.flavors.toml` in the working
/// directory, then `<config>/bsdkrun/flavors.toml`.
pub open spec fn user_flavor_paths_spec(
    explicit: Option<Seq<char>>,
    cwd: Option<Seq<char>>,
    xdg: Option<Seq<char>>,
    home: Option<Seq<char>>,
) -> Seq<Seq<char>> {
    let a = match explicit {
        Some(e) => if e.len() > 0 {
            seq![e]
        } else {
            Seq::empty()
        },
        None => Seq::empty(),
    };
    let b = match cwd {
        Some(c) => seq![crate::db::join(c, "bsdkrun.flavors.toml"@)],
        None => Seq::empty(),
    };
    let c = match config_dir(xdg, home) {
        Some(d) => seq![crate::db::join(crate::db::join(d, "bsdkrun"@), "flavors.toml"@)],
        None => Seq::empty(),
    };
    a + b + c
}

fn flavors_toml_under(cfg: &str) -> (r: String)
    ensures
        r@ == crate::db::join(crate::db::join(cfg@, "bsdkrun"@), "flavors.toml"@),
{
    let d = crate::db::path_join(cfg, "bsdkrun");
    crate::db::path_join(d.as_str(), "flavors.toml")
}

fn config_dir_of(xdg: Option<String>, home: Option<String>) -> (r: Option<String>)
    ensures
        opt_chars(r) == config_dir(opt_chars(xdg), opt_chars(home)),
{
    match xdg {
        Some(x) => Some(x),
        None => match home {
            Some(h) => Some(crate::db::path_join(h.as_str(), ".config")),
            None => None,
        },
    }
}

/// Where user flavors are looked for, from the environment and the working
/// directory.
pub fn user_flavor_paths(explicit: Option<String>, cwd: Option<String>, xdg: Option<String>, home: Option<String>) -> (r: Vec<String>)
    ensures
        owned_strs(r@) == user_flavor_paths_spec(opt_chars(explicit), opt_chars(cwd), opt_chars(xdg), opt_chars(home)),
{
    let ghost spec = user_flavor_paths_spec(opt_chars(explicit), opt_chars(cwd), opt_chars(xdg), opt_chars(home));
    let mut v: Vec<String> = Vec::new();
    match explicit {
        Some(e) => {
            if e.as_str().unicode_len() > 0 {
                v.push(e);
            }
        },
        None => {},
    }
    match cwd {
        Some(c) => {
            v.push(crate::db::path_join(c.as_str(), "bsdkrun.flavors.toml"));
        },
        None => {},
    }
    match config_dir_of(xdg, home) {
        Some(d) => {
            v.push(flavors_toml_under(d.as_str()));
        },
        None => {},
    }
    assert(owned_strs(v@) =~= spec);
    v
}

/// Where `flavor add` writes: `$BSDKRUN_FLAVORS_FILE` when set, else
/// `<config>/bsdkrun/flavors.toml`; an error without a place for it.
pub fn user_flavor_file_writable(explicit: Option<String>, xdg: Option<String>, home: Option<String>) -> (r: Result<String, String>)
    ensures
        match (r, opt_chars(explicit), config_dir(opt_chars(xdg), opt_chars(home))) {
            (Ok(p), Some(e), _) if e.len() > 0 => p@ == e,
            (Ok(p), _, Some(d)) => !(opt_chars(explicit) matches Some(e) && e.len() > 0) && p@ == crate::db::join(
                crate::db::join(d, "bsdkrun"@),
                "flavors.toml"@,
            ),
            (Err(m), _, None) => !(opt_chars(explicit) matches Some(e) && e.len() > 0) && m@
                == "no HOME/XDG_CONFIG_HOME to place flavors.toml"@,
            _ => false,
        },
{
    match explicit {
        Some(e) => {
            if e.as_str().unicode_len() > 0 {
                return Ok(e);
            }
        },
        None => {},
    }
    match config_dir_of(xdg, home) {
        Some(d) => Ok(flavors_toml_under(d.as_str())),
        None => Err(String::from_str("no HOME/XDG_CONFIG_HOME to place flavors.toml")),
    }
}

} // verus!
