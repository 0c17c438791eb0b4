//! What the Gradle run for a root's classpath is made of: the command, its
//! arguments, the init script that adds the reporting task, and the shape
//! of the report.
use vstd::prelude::*;
use crate::text::collation::string_views;
use crate::text::strings::concat;

verus! {

/// One Gradle project of a build: its name, its path in the build, its
/// compile classpath and its source roots (absolute paths).
#[derive(Clone, Debug)]
pub struct GradleModule {
    pub name: String,
    pub path: String,
    pub classpath: Vec<String>,
    pub source_roots: Vec<String>,
}

pub struct GradleModuleView {
    pub name: Seq<char>,
    pub path: Seq<char>,
    pub classpath: Seq<Seq<char>>,
    pub source_roots: Seq<Seq<char>>,
}

impl View for GradleModule {
    type V = GradleModuleView;

    open spec fn view(&self) -> GradleModuleView {
        GradleModuleView {
            name: self.name@,
            path: self.path@,
            classpath: string_views(self.classpath@),
            source_roots: string_views(self.source_roots@),
        }
    }
}

/// What the reporting task writes: every project of the build.
#[derive(Clone, Debug)]
pub struct GradleClasspath {
    pub modules: Vec<GradleModule>,
}

impl View for GradleClasspath {
    type V = Seq<GradleModuleView>;

    open spec fn view(&self) -> Seq<GradleModuleView> {
        Seq::new(self.modules@.len(), |i: int| self.modules@[i]@)
    }
}

/// The Gradle init script that registers the task `kotlinAnalyzerClasspath`
/// in every project; the task writes, as JSON, each project's name, path,
/// compile classpath and source roots, to the file named by the property
/// `kotlinAnalyzerOutput`, or to standard output without it.
pub const GRADLE_INIT_SCRIPT: &'static str = r#"
import groovy.json.JsonOutput

def outputPath = null
if (hasProperty("kotlinAnalyzerOutput")) {
    outputPath = project.property("kotlinAnalyzerOutput")
}

def collectSourceRoots = { proj ->
    def roots = []
    def sourceSets = proj.extensions.findByName("sourceSets")
    if (sourceSets != null) {
        def main = sourceSets.findByName("main")
        if (main != null) {
            def kotlinExt = main.extensions.findByName("kotlin")
            if (kotlinExt != null && kotlinExt.hasProperty("srcDirs")) {
                roots.addAll(kotlinExt.srcDirs)
            }
            if (main.hasProperty("java")) {
                roots.addAll(main.java.srcDirs)
            }
            if (main.hasProperty("resources")) {
                roots.addAll(main.resources.srcDirs)
            }
        }
    }
    roots.findAll { it != null }.collect { it.absolutePath }
}

def collectClasspath = { proj ->
    def files = []
    def conf = proj.configurations.findByName("compileClasspath")
    if (conf != null) {
        try {
            files.addAll(conf.resolve())
        } catch (Exception ignored) {
        }
    }
    files.findAll { it != null }.collect { it.absolutePath }
}

allprojects { proj ->
    tasks.register("kotlinAnalyzerClasspath") {
        doLast {
            def modules = []
            rootProject.allprojects.each { p ->
                def moduleInfo = [
                    name: p.name,
                    path: p.path,
                    classpath: collectClasspath(p),
                    source_roots: collectSourceRoots(p),
                ]
                modules.add(moduleInfo)
            }

            def payload = [modules: modules]
            def json = JsonOutput.toJson(payload)

            if (outputPath == null || outputPath.toString().isEmpty()) {
                println(json)
            } else {
                def file = new File(outputPath.toString())
                file.parentFile.mkdirs()
                file.text = json
            }
        }
    }
}
"#;

/// The text of the init script.
pub fn init_script_body() -> (r: &'static str)
    ensures
        r@ == GRADLE_INIT_SCRIPT@,
{
    GRADLE_INIT_SCRIPT
}

/// The name of the Gradle wrapper script at the root of a build.
pub open spec fn gradle_wrapper_name(windows: bool) -> Seq<char> {
    if windows {
        "gradlew.bat"@
    } else {
        "gradlew"@
    }
}

/// The file name of the Gradle wrapper script on this kind of system.
pub fn gradle_wrapper_file(windows: bool) -> (r: &'static str)
    ensures
        r@ == gradle_wrapper_name(windows),
{
    if windows {
        "gradlew.bat"
    } else {
        "gradlew"
    }
}

/// The command that runs Gradle for a root: its wrapper script when the
/// root has one (by its full path on Windows, relative to the root
/// elsewhere), else `gradle` from the search path.
pub fn find_gradle_command(windows: bool, wrapper_path: &str, wrapper_exists: bool) -> (r: String)
    ensures
        r@ == if !wrapper_exists {
            "gradle"@
        } else if windows {
            wrapper_path@
        } else {
            "./gradlew"@
        },
{
    if wrapper_exists {
        if windows {
            return wrapper_path.to_owned();
        }
        return "./gradlew".to_owned();
    }
    "gradle".to_owned()
}

/// The arguments of the Gradle run: no daemon, quiet, the init script, the
/// file to write the report to, and the reporting task.
pub fn gradle_arguments(init_script: &str, output_file: &str) -> (r: Vec<String>)
    ensures
        string_views(r@) == seq![
            "--no-daemon"@,
            "-q"@,
            "-I"@,
            init_script@,
            "-PkotlinAnalyzerOutput="@ + output_file@,
            "kotlinAnalyzerClasspath"@,
        ],
{
    let r = vec![
        "--no-daemon".to_owned(),
        "-q".to_owned(),
        "-I".to_owned(),
        init_script.to_owned(),
        concat("-PkotlinAnalyzerOutput=", output_file),
        "kotlinAnalyzerClasspath".to_owned(),
    ];
    assert(string_views(r@) =~= seq![
        "--no-daemon"@,
        "-q"@,
        "-I"@,
        init_script@,
        "-PkotlinAnalyzerOutput="@ + output_file@,
        "kotlinAnalyzerClasspath"@,
    ]);
    r
}

} // verus!
