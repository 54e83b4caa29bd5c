//! Launcher configuration: the JVM invocation a server starts with, and
//! the start-up scripts generated from it.

use vstd::prelude::*;

use crate::text::{
    clone_strings, contains_space, has_space, join_spaces, joined_with_spaces, str_eq,
};

verus! {

/// A bundled set of JVM flags.
#[derive(Clone, Copy, PartialEq, Eq, Structural, Debug)]
pub enum PresetFlags {
    /// Aikar's garbage-collection tuning for game servers.
    Aikars,
    /// Tuning for proxy servers.
    Proxy,
    /// No preset flags.
    Off,
}

/// The flags of the Aikars preset, in order.
pub open spec fn aikars_flags() -> Seq<Seq<char>> {
    seq![
        "-XX:+UseG1GC"@,
        "-XX:+ParallelRefProcEnabled"@,
        "-XX:MaxGCPauseMillis=200"@,
        "-XX:+UnlockExperimentalVMOptions"@,
        "-XX:+DisableExplicitGC"@,
        "-XX:+AlwaysPreTouch"@,
        "-XX:G1NewSizePercent=30"@,
        "-XX:G1MaxNewSizePercent=40"@,
        "-XX:G1HeapRegionSize=8M"@,
        "-XX:G1ReservePercent=20"@,
        "-XX:G1HeapWastePercent=5"@,
        "-XX:G1MixedGCCountTarget=4"@,
        "-XX:InitiatingHeapOccupancyPercent=15"@,
        "-XX:G1MixedGCLiveThresholdPercent=90"@,
        "-XX:G1RSetUpdatingPauseTimePercent=5"@,
        "-XX:SurvivorRatio=32"@,
        "-XX:+PerfDisableSharedMem"@,
        "-XX:MaxTenuringThreshold=1"@,
        "-Dusing.aikars.flags=https://mcflags.emc.gs"@,
        "-Daikars.new.flags=true"@,
    ]
}

/// The flags of the Proxy preset, in order.
pub open spec fn proxy_flags() -> Seq<Seq<char>> {
    seq![
        "-XX:+UseG1GC"@,
        "-XX:G1HeapRegionSize=4M"@,
        "-XX:+UnlockExperimentalVMOptions"@,
        "-XX:+ParallelRefProcEnabled"@,
        "-XX:+AlwaysPreTouch"@,
        "-XX:MaxInlineLevel=15"@,
    ]
}

impl PresetFlags {
    /// The flag list the preset expands to.
    pub open spec fn flags_spec(self) -> Seq<Seq<char>> {
        match self {
            PresetFlags::Aikars => aikars_flags(),
            PresetFlags::Proxy => proxy_flags(),
            PresetFlags::Off => Seq::empty(),
        }
    }

    /// Expands the preset into its flag list.
    pub fn get_flags(&self) -> (r: Vec<String>)
        ensures
            r.deep_view() == self.flags_spec(),
    {
        let mut v: Vec<String> = Vec::new();
        match self {
            PresetFlags::Aikars => {
                v.push("-XX:+UseG1GC".to_owned());
                v.push("-XX:+ParallelRefProcEnabled".to_owned());
                v.push("-XX:MaxGCPauseMillis=200".to_owned());
                v.push("-XX:+UnlockExperimentalVMOptions".to_owned());
                v.push("-XX:+DisableExplicitGC".to_owned());
                v.push("-XX:+AlwaysPreTouch".to_owned());
                v.push("-XX:G1NewSizePercent=30".to_owned());
                v.push("-XX:G1MaxNewSizePercent=40".to_owned());
                v.push("-XX:G1HeapRegionSize=8M".to_owned());
                v.push("-XX:G1ReservePercent=20".to_owned());
                v.push("-XX:G1HeapWastePercent=5".to_owned());
                v.push("-XX:G1MixedGCCountTarget=4".to_owned());
                v.push("-XX:InitiatingHeapOccupancyPercent=15".to_owned());
                v.push("-XX:G1MixedGCLiveThresholdPercent=90".to_owned());
                v.push("-XX:G1RSetUpdatingPauseTimePercent=5".to_owned());
                v.push("-XX:SurvivorRatio=32".to_owned());
                v.push("-XX:+PerfDisableSharedMem".to_owned());
                v.push("-XX:MaxTenuringThreshold=1".to_owned());
                v.push("-Dusing.aikars.flags=https://mcflags.emc.gs".to_owned());
                v.push("-Daikars.new.flags=true".to_owned());
                proof {
                    assert(v.deep_view() =~= aikars_flags());
                }
            },
            PresetFlags::Proxy => {
                v.push("-XX:+UseG1GC".to_owned());
                v.push("-XX:G1HeapRegionSize=4M".to_owned());
                v.push("-XX:+UnlockExperimentalVMOptions".to_owned());
                v.push("-XX:+ParallelRefProcEnabled".to_owned());
                v.push("-XX:+AlwaysPreTouch".to_owned());
                v.push("-XX:MaxInlineLevel=15".to_owned());
                proof {
                    assert(v.deep_view() =~= proxy_flags());
                }
            },
            PresetFlags::Off => {
                proof {
                    assert(v.deep_view() =~= Seq::<Seq<char>>::empty());
                }
            },
        }
        v
    }
}

/// One `-D` system property handed to the JVM.
#[derive(Debug)]
pub struct SystemProperty {
    pub key: String,
    pub value: String,
}

/// How the server process is started.
#[derive(Debug)]
pub enum StartupMethod {
    /// Start a jar by filename.
    Jar(String),
    /// Per-platform custom command lines.
    Custom { windows: Vec<String>, linux: Vec<String> },
}

/// The argument a system property expands to: the value is quoted exactly
/// when it holds whitespace.
pub open spec fn property_arg(p: SystemProperty) -> Seq<char> {
    "-D"@ + p.key@ + "="@ + (if has_space(p.value@) {
        "\""@ + p.value@ + "\""@
    } else {
        p.value@
    })
}

/// The property arguments, in declaration order.
pub open spec fn property_args(ps: Seq<SystemProperty>) -> Seq<Seq<char>> {
    ps.map_values(|p: SystemProperty| property_arg(p))
}

/// The arguments a startup method contributes for a platform.
pub open spec fn startup_args(s: StartupMethod, platform: Seq<char>) -> Seq<Seq<char>> {
    match s {
        StartupMethod::Jar(jar) => seq!["-jar"@, jar@],
        StartupMethod::Custom { windows, linux } => {
            if platform == "linux"@ {
                linux.deep_view()
            } else if platform == "windows"@ {
                windows.deep_view()
            } else {
                Seq::empty()
            }
        },
    }
}

/// Launcher configuration of one server: which flags, arguments and
/// properties its JVM is started with.
#[derive(Debug)]
pub struct ServerLauncher {
    pub eula_args: bool,
    pub nogui: bool,
    pub preset_flags: PresetFlags,
    pub disable: bool,
    pub jvm_args: Vec<String>,
    pub game_args: Vec<String>,
    pub memory: String,
    pub properties: Vec<SystemProperty>,
    pub prelaunch: Vec<String>,
    pub postlaunch: Vec<String>,
    pub java_version: Option<String>,
}

impl ServerLauncher {
    /// Well-formed: no system-property key is declared twice — the
    /// guarantee a keyed property map gives, and what keeps the emitted
    /// `-D` flags free of duplicates.
    pub open spec fn wf(self) -> bool {
        forall|i: int, j: int|
            0 <= i < j < self.properties@.len() ==> (#[trigger] self.properties@[i]).key@
                != (#[trigger] self.properties@[j]).key@
    }

    /// The java binary the launcher chooses, given the environment's
    /// answers: the binding for the configured java version wins, then the
    /// general binding, then plain "java".
    pub open spec fn java_spec(
        self,
        version_bin: Option<String>,
        java_bin: Option<String>,
    ) -> Seq<char> {
        if self.java_version is Some && version_bin is Some {
            version_bin->Some_0@
        } else if java_bin is Some {
            java_bin->Some_0@
        } else {
            "java"@
        }
    }

    /// Decides the java binary; `version_bin` and `java_bin` stand for the
    /// surrounding environment's per-version and general bindings.
    pub fn get_java(&self, version_bin: &Option<String>, java_bin: &Option<String>) -> (r: String)
        ensures
            r@ == self.java_spec(*version_bin, *java_bin),
    {
        match (&self.java_version, version_bin) {
            (Some(_), Some(p)) => p.clone(),
            _ => match java_bin {
                Some(p) => p.clone(),
                None => String::from_str("java"),
            },
        }
    }

    /// The heap arguments: the memory override (from the environment) wins
    /// over the configured size; none are emitted when neither is present.
    pub open spec fn memory_args_spec(self, mem_override: Option<String>) -> Seq<Seq<char>> {
        let eff = match mem_override {
            Some(m) => m@,
            None => self.memory@,
        };
        if mem_override is Some || self.memory@.len() > 0 {
            seq!["-Xms"@ + eff, "-Xmx"@ + eff]
        } else {
            Seq::empty()
        }
    }

    /// The full JVM argument list, in order: configured JVM arguments, heap
    /// sizing, preset flags, the eula acceptance, system properties, the
    /// startup method's own arguments, `--nogui` (never for proxies), and
    /// the game arguments.
    pub open spec fn arguments_spec(
        self,
        startup: StartupMethod,
        platform: Seq<char>,
        mem_override: Option<String>,
    ) -> Seq<Seq<char>> {
        self.jvm_args.deep_view() + self.memory_args_spec(mem_override)
            + self.preset_flags.flags_spec() + (if self.eula_args {
            seq!["-Dcom.mojang.eula.agree=true"@]
        } else {
            Seq::empty()
        }) + property_args(self.properties@) + startup_args(startup, platform) + (if self.nogui
            && self.preset_flags != PresetFlags::Proxy {
            seq!["--nogui"@]
        } else {
            Seq::empty()
        }) + self.game_args.deep_view()
    }

    /// Builds the JVM argument list, as `arguments_spec` describes it.
    pub fn get_arguments(
        &self,
        startup: &StartupMethod,
        platform: &str,
        mem_override: &Option<String>,
    ) -> (r: Vec<String>)
        requires
            self.wf(),
        ensures
            r.deep_view() == self.arguments_spec(*startup, platform@, *mem_override),
    {
        let mut args = clone_strings(&self.jvm_args);
        let ghost s1 = self.jvm_args.deep_view();

        if mem_override.is_some() || !self.memory.as_str().is_empty() {
            let m: &String = match mem_override {
                Some(x) => x,
                None => &self.memory,
            };
            let mut xms = String::from_str("-Xms");
            xms.append(m.as_str());
            args.push(xms);
            let mut xmx = String::from_str("-Xmx");
            xmx.append(m.as_str());
            args.push(xmx);
        }
        let ghost s2 = s1 + self.memory_args_spec(*mem_override);
        proof {
            assert(args.deep_view() =~= s2);
        }

        let mut flags = self.preset_flags.get_flags();
        args.append(&mut flags);
        let ghost s3 = s2 + self.preset_flags.flags_spec();
        proof {
            assert(args.deep_view() =~= s3);
        }

        if self.eula_args {
            args.push("-Dcom.mojang.eula.agree=true".to_owned());
        }
        let ghost s4 = s3 + (if self.eula_args {
            seq!["-Dcom.mojang.eula.agree=true"@]
        } else {
            Seq::<Seq<char>>::empty()
        });
        proof {
            assert(args.deep_view() =~= s4);
        }

        let np = self.properties.len();
        let mut j: usize = 0;
        while j < np
            invariant
                np == self.properties@.len(),
                j <= np,
                args.deep_view() == s4 + property_args(self.properties@.take(j as int)),
            decreases np - j,
        {
            let p = &self.properties[j];
            let mut a = String::from_str("-D");
            a.append(p.key.as_str());
            a.append("=");
            if contains_space(p.value.as_str()) {
                a.append("\"");
                a.append(p.value.as_str());
                a.append("\"");
            } else {
                a.append(p.value.as_str());
            }
            proof {
                assert(a@ == property_arg(self.properties@[j as int]));
            }
            let ghost vpre = args@;
            let ghost dvpre = args.deep_view();
            args.push(a);
            proof {
                let ps = self.properties@;
                assert(ps.take(j + 1)[j as int] == ps[j as int]);
                assert(property_args(ps.take(j + 1))[j as int] == property_arg(ps[j as int]));
                assert forall|k: int| 0 <= k < j implies property_args(ps.take(j + 1))[k]
                    == property_args(ps.take(j as int))[k] by {
                    assert(ps.take(j + 1)[k] == ps[k]);
                    assert(ps.take(j as int)[k] == ps[k]);
                }
                assert(args@ == vpre.push(a));
                assert forall|k: int| 0 <= k < vpre.len() implies #[trigger] args.deep_view()[k]
                    == dvpre[k] by {
                    assert(args@[k] == vpre[k]);
                }
                assert(args.deep_view()[vpre.len() as int] == a@);
                let rhs = s4 + property_args(ps.take(j + 1));
                assert(dvpre.len() == s4.len() + j);
                assert(args.deep_view().len() == rhs.len());
                assert forall|k: int| 0 <= k < rhs.len() implies args.deep_view()[k] == rhs[k] by {
                    if k < s4.len() {
                        assert(dvpre[k] == s4[k]);
                    } else if k < vpre.len() {
                        assert(dvpre[k] == property_args(ps.take(j as int))[k - s4.len()]);
                        assert(rhs[k] == property_args(ps.take(j + 1))[k - s4.len()]);
                    } else {
                        assert(rhs[k] == property_args(ps.take(j + 1))[j as int]);
                    }
                }
                assert(args.deep_view() =~= rhs);
            }
            j += 1;
        }
        proof {
            assert(self.properties@.take(np as int) =~= self.properties@);
        }
        let ghost s5 = s4 + property_args(self.properties@);
        proof {
            assert(args.deep_view() =~= s5);
        }

        match startup {
            StartupMethod::Jar(jar) => {
                args.push("-jar".to_owned());
                args.push(jar.clone());
            },
            StartupMethod::Custom { windows, linux } => {
                if str_eq(platform, "linux") {
                    let mut xs = clone_strings(linux);
                    args.append(&mut xs);
                } else if str_eq(platform, "windows") {
                    let mut xs = clone_strings(windows);
                    args.append(&mut xs);
                }
            },
        }
        let ghost s6 = s5 + startup_args(*startup, platform@);
        proof {
            assert(args.deep_view() =~= s6);
        }

        if self.nogui && !(self.preset_flags == PresetFlags::Proxy) {
            args.push("--nogui".to_owned());
        }
        let ghost s7 = s6 + (if self.nogui && self.preset_flags != PresetFlags::Proxy {
            seq!["--nogui"@]
        } else {
            Seq::<Seq<char>>::empty()
        });
        proof {
            assert(args.deep_view() =~= s7);
        }

        let mut game = clone_strings(&self.game_args);
        args.append(&mut game);
        proof {
            assert(args.deep_view() =~= s7 + self.game_args.deep_view());
            assert(s7 + self.game_args.deep_view() =~= self.arguments_spec(
                *startup,
                platform@,
                *mem_override,
            ));
        }
        args
    }

    /// The shell script that starts the server on a POSIX platform.
    pub open spec fn script_linux_spec(java: Seq<char>, args: Seq<char>) -> Seq<char> {
        "#!/bin/sh\n# generated by mcman\n"@ + java + " "@ + args + " \"$@\"\n"@
    }

    /// Renders the POSIX start-up script around the given java binary; the
    /// memory override stands for the surrounding environment's say.
    pub fn generate_script_linux(
        &self,
        _servername: &str,
        startup: &StartupMethod,
        java: &str,
        mem_override: &Option<String>,
    ) -> (r: String)
        requires
            self.wf(),
        ensures
            r@ == Self::script_linux_spec(
                java@,
                joined_with_spaces(self.arguments_spec(*startup, "linux"@, *mem_override)),
            ),
    {
        let arguments = self.get_arguments(startup, "linux", mem_override);
        let joined = join_spaces(&arguments);
        let mut out = String::from_str("#!/bin/sh\n# generated by mcman\n");
        out.append(java);
        out.append(" ");
        out.append(joined.as_str());
        out.append(" \"$@\"\n");
        out
    }

    /// The batch script that starts the server on Windows.
    pub open spec fn script_win_spec(
        servername: Seq<char>,
        java: Seq<char>,
        args: Seq<char>,
    ) -> Seq<char> {
        "@echo off\r\n:: generated by mcman\r\ntitle "@ + servername + "\r\n"@ + java + " "@ + args + " %*\r\n"@
    }

    /// Renders the Windows start-up script around the given java binary.
    pub fn generate_script_win(
        &self,
        servername: &str,
        startup: &StartupMethod,
        java: &str,
        mem_override: &Option<String>,
    ) -> (r: String)
        requires
            self.wf(),
        ensures
            r@ == Self::script_win_spec(
                servername@,
                java@,
                joined_with_spaces(self.arguments_spec(*startup, "windows"@, *mem_override)),
            ),
    {
        let arguments = self.get_arguments(startup, "windows", mem_override);
        let joined = join_spaces(&arguments);
        let mut out = String::from_str("@echo off\r\n:: generated by mcman\r\ntitle ");
        out.append(servername);
        out.append("\r\n");
        out.append(java);
        out.append(" ");
        out.append(joined.as_str());
        out.append(" %*\r\n");
        out
    }
}

impl Default for ServerLauncher {
    /// The launcher a fresh server starts from: eula accepted, no GUI, no
    /// preset flags, nothing else configured.
    fn default() -> (r: Self)
        ensures
            r.eula_args == true,
            r.nogui == true,
            r.preset_flags == PresetFlags::Off,
            r.disable == false,
            r.jvm_args@ == Seq::<String>::empty(),
            r.game_args@ == Seq::<String>::empty(),
            r.memory@ == Seq::<char>::empty(),
            r.properties@ == Seq::<SystemProperty>::empty(),
            r.prelaunch@ == Seq::<String>::empty(),
            r.postlaunch@ == Seq::<String>::empty(),
            r.java_version is None,
            r.wf(),
    {
        ServerLauncher {
            eula_args: true,
            nogui: true,
            preset_flags: PresetFlags::Off,
            disable: false,
            jvm_args: Vec::new(),
            game_args: Vec::new(),
            memory: String::new(),
            properties: Vec::new(),
            prelaunch: Vec::new(),
            postlaunch: Vec::new(),
            java_version: None,
        }
    }
}

} // verus!
