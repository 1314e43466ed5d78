//! Arguments of the command-line interface, as plain values: each command's
//! options and the choices they accept. The command-line parser fills these.

use vstd::prelude::*;
use crate::text::{views, owned, concat, concat3, chars_of, chars_between, copy_string, decimal, decimal_text};
use crate::strmap::StrMap;
use crate::data_source::text_views;
use crate::test_case_manager::TestCase;
use crate::execution::{ExecutionResult, TestResult, successes};
use crate::json::JsonValue;
use crate::configuration::{
    Configuration, ExecutionConfig, RetryConfig, RateLimitConfig, ConfigPluginConfig, ReportingConfig, ConfigAuthConfig,
    ConfigDataSourceConfig, EnvironmentConfig,
};

verus! {

pub struct TestCaseArgs {
    pub command: TestCaseCommands,
}

pub enum TestCaseCommands {
    /// Create a new test case
    Create(CreateTestCaseArgs),

    /// List test cases
    List(ListTestCaseArgs),

    /// Show test case details
    Show(ShowTestCaseArgs),

    /// Update a test case
    Update(UpdateTestCaseArgs),

    /// Delete a test case
    Delete(DeleteTestCaseArgs),

    /// Search test cases
    Search(SearchTestCaseArgs),

    /// Validate test cases
    Validate(ValidateTestCaseArgs),

    /// Generate documentation
    Document(DocumentTestCaseArgs),
}

pub struct CreateTestCaseArgs {
    /// Test case name
    pub name: String,

    /// Test case description
    pub description: Option<String>,

    /// Output file path
    pub output: Option<String>,

    /// Template to use
    pub template: Option<String>,

    /// Template variables (key=value format)
    pub variables: Vec<String>,

    /// Interactive mode
    pub interactive: bool,
}

pub struct ListTestCaseArgs {
    /// Directory to search
    pub directory: String,

    /// Filter by tags
    pub tags: Vec<String>,

    /// Filter by protocol
    pub protocol: Option<String>,

    /// Show detailed information
    pub detailed: bool,

    /// Output format
    pub format: Option<OutputFormat>,
}

pub struct ShowTestCaseArgs {
    /// Test case file path
    pub path: String,

    /// Show execution history
    pub history: bool,

    /// Show validation results
    pub validate: bool,
}

pub struct UpdateTestCaseArgs {
    /// Test case file path
    pub path: String,

    /// New name
    pub name: Option<String>,

    /// New description
    pub description: Option<String>,

    /// Add tags
    pub add_tags: Vec<String>,

    /// Remove tags
    pub remove_tags: Vec<String>,

    /// Interactive mode
    pub interactive: bool,
}

pub struct DeleteTestCaseArgs {
    /// Test case file paths
    pub paths: Vec<String>,

    /// Force deletion without confirmation
    pub force: bool,

    /// Delete recursively
    pub recursive: bool,
}

pub struct SearchTestCaseArgs {
    /// Search query
    pub query: String,

    /// Search in directory
    pub directory: String,

    /// Search fields
    pub fields: Vec<SearchField>,

    /// Case sensitive search
    pub case_sensitive: bool,

    /// Use regex patterns
    pub regex: bool,

    /// Maximum results
    pub limit: Option<usize>,
}

pub struct ValidateTestCaseArgs {
    /// Test case files or directories
    pub targets: Vec<String>,

    /// Validation rules file
    pub rules: Option<String>,

    /// Severity level to report
    pub severity: ValidationSeverity,

    /// Fix issues automatically
    pub fix: bool,
}

pub struct DocumentTestCaseArgs {
    /// Test case files or directories
    pub targets: Vec<String>,

    /// Output file path
    pub output: Option<String>,

    /// Documentation format
    pub format: DocumentationFormat,

    /// Include execution history
    pub include_history: bool,

    /// Group by category
    pub group_by: Option<GroupingStrategy>,
}

pub struct PluginArgs {
    pub command: PluginCommands,
}

pub enum PluginCommands {
    /// List installed plugins
    List(ListPluginArgs),

    /// Install a plugin
    Install(InstallPluginArgs),

    /// Uninstall a plugin
    Uninstall(UninstallPluginArgs),

    /// Update plugins
    Update(UpdatePluginArgs),

    /// Show plugin information
    Info(InfoPluginArgs),

    /// Enable/disable plugins
    Toggle(TogglePluginArgs),

    /// Reload plugins
    Reload(ReloadPluginArgs),
}

pub struct ListPluginArgs {
    /// Show detailed information
    pub detailed: bool,

    /// Filter by plugin type
    pub plugin_type: Option<PluginType>,

    /// Show only enabled plugins
    pub enabled_only: bool,
}

pub struct InstallPluginArgs {
    /// Plugin path or URL
    pub source: String,

    /// Force installation
    pub force: bool,

    /// Skip dependency check
    pub skip_deps: bool,
}

pub struct UninstallPluginArgs {
    /// Plugin names
    pub plugins: Vec<String>,

    /// Force uninstallation
    pub force: bool,

    /// Remove dependencies
    pub remove_deps: bool,
}

pub struct UpdatePluginArgs {
    /// Plugin names (empty for all)
    pub plugins: Vec<String>,

    /// Check for updates only
    pub check_only: bool,
}

pub struct InfoPluginArgs {
    /// Plugin name
    pub plugin: String,

    /// Show configuration
    pub config: bool,

    /// Show dependencies
    pub deps: bool,
}

pub struct TogglePluginArgs {
    /// Plugin name
    pub plugin: String,

    /// Enable the plugin
    pub enable: bool,

    /// Disable the plugin
    pub disable: bool,
}

pub struct ReloadPluginArgs {
    /// Plugin names (empty for all)
    pub plugins: Vec<String>,

    /// Force reload
    pub force: bool,
}

pub struct InteractiveArgs {
    /// Test case file
    pub test_case: Option<String>,

    /// Enable step-by-step execution
    pub step_through: bool,

    /// Enable variable inspection
    pub inspect_variables: bool,

    /// Set breakpoints (step numbers)
    pub breakpoints: Vec<usize>,

    /// Enable verbose output
    pub verbose: bool,
}

pub struct ReportArgs {
    pub command: ReportCommands,
}

pub enum ReportCommands {
    /// Generate reports from execution results
    Generate(GenerateReportArgs),

    /// List available reports
    List(ListReportArgs),

    /// Show report details
    Show(ShowReportArgs),

    /// Compare reports
    Compare(CompareReportArgs),
}

pub struct GenerateReportArgs {
    /// Input results file or directory
    pub input: String,

    /// Output directory
    pub output: Option<String>,

    /// Report formats
    pub formats: Vec<ReportFormat>,

    /// Report template
    pub template: Option<String>,

    /// Include performance metrics
    pub include_metrics: bool,

    /// Include failure analysis
    pub include_analysis: bool,
}

pub struct ListReportArgs {
    /// Reports directory
    pub directory: String,

    /// Show detailed information
    pub detailed: bool,
}

pub struct ShowReportArgs {
    /// Report file path
    pub path: String,

    /// Open in browser (for HTML reports)
    pub browser: bool,
}

pub struct CompareReportArgs {
    /// First report file
    pub report1: String,

    /// Second report file
    pub report2: String,

    /// Output file for comparison
    pub output: Option<String>,

    /// Comparison format
    pub format: ReportFormat,
}

pub struct ConfigArgs {
    pub command: ConfigCommands,
}

pub enum ConfigCommands {
    /// Show current configuration
    Show(ShowConfigArgs),

    /// Set configuration value (`config set`)
    SetValue(SetConfigArgs),

    /// Get configuration value
    Get(GetConfigArgs),

    /// Validate configuration
    Validate(ValidateConfigArgs),

    /// Reset configuration
    Reset(ResetConfigArgs),

    /// Export configuration
    Export(ExportConfigArgs),

    /// Import configuration
    Import(ImportConfigArgs),
}

pub struct ShowConfigArgs {
    /// Configuration section
    pub section: Option<String>,

    /// Show sensitive values
    pub show_sensitive: bool,

    /// Output format
    pub format: Option<OutputFormat>,
}

pub struct SetConfigArgs {
    /// Configuration key
    pub key: String,

    /// Configuration value
    pub value: String,

    /// Configuration section
    pub section: Option<String>,

    /// Mark as sensitive
    pub sensitive: bool,
}

pub struct GetConfigArgs {
    /// Configuration key
    pub key: String,

    /// Configuration section
    pub section: Option<String>,

    /// Show default value if not set
    pub show_default: bool,
}

pub struct ValidateConfigArgs {
    /// Configuration file
    pub file: Option<String>,

    /// Strict validation
    pub strict: bool,
}

pub struct ResetConfigArgs {
    /// Configuration section to reset
    pub section: Option<String>,

    /// Force reset without confirmation
    pub force: bool,
}

pub struct ExportConfigArgs {
    /// Output file
    pub output: Option<String>,

    /// Export format
    pub format: ConfigFormat,

    /// Include sensitive values
    pub include_sensitive: bool,
}

pub struct ImportConfigArgs {
    /// Input file
    pub input: String,

    /// Merge with existing configuration
    pub merge: bool,

    /// Force import without confirmation
    pub force: bool,
}

pub struct TemplateArgs {
    pub command: TemplateCommands,
}

pub enum TemplateCommands {
    /// List available templates
    List(ListTemplateArgs),

    /// Show template details
    Show(ShowTemplateArgs),

    /// Create a new template
    Create(CreateTemplateArgs),

    /// Update a template
    Update(UpdateTemplateArgs),

    /// Delete a template
    Delete(DeleteTemplateArgs),

    /// Validate templates
    Validate(ValidateTemplateArgs),
}

pub struct ListTemplateArgs {
    /// Filter by category
    pub category: Option<TemplateCategory>,

    /// Show detailed information
    pub detailed: bool,

    /// Include custom templates
    pub include_custom: bool,
}

pub struct ShowTemplateArgs {
    /// Template ID
    pub template: String,

    /// Show variables
    pub variables: bool,

    /// Show instructions
    pub instructions: bool,
}

pub struct CreateTemplateArgs {
    /// Template name
    pub name: String,

    /// Template description
    pub description: String,

    /// Template category
    pub category: TemplateCategory,

    /// Source test case file
    pub source: Option<String>,

    /// Interactive mode
    pub interactive: bool,
}

pub struct UpdateTemplateArgs {
    /// Template ID
    pub template: String,

    /// New name
    pub name: Option<String>,

    /// New description
    pub description: Option<String>,

    /// New category
    pub category: Option<TemplateCategory>,

    /// Interactive mode
    pub interactive: bool,
}

pub struct DeleteTemplateArgs {
    /// Template IDs
    pub templates: Vec<String>,

    /// Force deletion without confirmation
    pub force: bool,
}

pub struct ValidateTemplateArgs {
    /// Template IDs (empty for all)
    pub templates: Vec<String>,

    /// Fix issues automatically
    pub fix: bool,
}

pub struct ImportExportArgs {
    pub command: ImportExportCommands,
}

pub enum ImportExportCommands {
    /// Import test cases
    Import(ImportArgs),

    /// Export test cases
    Export(ExportArgs),
}

pub struct ImportArgs {
    /// Source file or URL
    pub source: String,

    /// Import format
    pub format: ImportFormat,

    /// Output directory
    pub output: Option<String>,

    /// Conversion options
    pub options: Vec<String>,

    /// Dry run (validate without importing)
    pub dry_run: bool,

    /// Force import (overwrite existing)
    pub force: bool,
}

pub struct ExportArgs {
    /// Source directory or files
    pub sources: Vec<String>,

    /// Export format
    pub format: ExportFormat,

    /// Output file or directory
    pub output: Option<String>,

    /// Export options
    pub options: Vec<String>,

    /// Include metadata
    pub include_metadata: bool,
}

pub struct QualityArgs {
    pub command: QualityCommands,
}

pub enum QualityCommands {
    /// Analyze test quality
    Analyze(AnalyzeQualityArgs),

    /// Generate quality report
    Report(QualityReportArgs),

    /// Show quality metrics
    Metrics(QualityMetricsArgs),

    /// Get maintenance recommendations
    Recommendations(RecommendationsArgs),
}

pub struct AnalyzeQualityArgs {
    /// Test case files or directories
    pub targets: Vec<String>,

    /// Output file
    pub output: Option<String>,

    /// Analysis depth
    pub depth: AnalysisDepth,

    /// Include coverage analysis
    pub coverage: bool,

    /// Include maintenance metrics
    pub maintenance: bool,
}

pub struct QualityReportArgs {
    /// Analysis results file
    pub input: String,

    /// Output file
    pub output: Option<String>,

    /// Report format
    pub format: ReportFormat,

    /// Include recommendations
    pub recommendations: bool,
}

pub struct QualityMetricsArgs {
    /// Test case files or directories
    pub targets: Vec<String>,

    /// Metric types to show
    pub metrics: Vec<MetricType>,

    /// Output format
    pub format: Option<OutputFormat>,
}

pub struct RecommendationsArgs {
    /// Test case files or directories
    pub targets: Vec<String>,

    /// Priority level
    pub priority: Option<RecommendationPriority>,

    /// Category filter
    pub category: Option<MaintenanceCategory>,

    /// Show implementation details
    pub detailed: bool,
}

pub struct BrowseArgs {
    /// Results file or directory
    pub input: Option<String>,

    /// Filter by status
    pub status: Option<ResultStatus>,

    /// Filter by test name pattern
    pub name_pattern: Option<String>,

    /// Show only failures
    pub failures_only: bool,

    /// Interactive mode
    pub interactive: bool,

    /// Comparison mode
    pub compare: Option<String>,
}

#[derive(Clone, Copy, Debug, PartialEq, Eq, Structural)]
pub enum OutputFormat {
    Json,
    Yaml,
    Table,
    Csv,
}

#[derive(Clone, Copy, Debug, PartialEq, Eq, Structural)]
pub enum ReportFormat {
    Html,
    Json,
    Xml,
    Junit,
    Markdown,
}

#[derive(Clone, Copy, Debug, PartialEq, Eq, Structural)]
pub enum SearchField {
    Name,
    Description,
    Tags,
    Protocol,
    Url,
    All,
}

#[derive(Clone, Copy, Debug, PartialEq, Eq, Structural)]
pub enum ValidationSeverity {
    Error,
    Warning,
    Info,
}

#[derive(Clone, Copy, Debug, PartialEq, Eq, Structural)]
pub enum DocumentationFormat {
    Html,
    Markdown,
    Pdf,
}

#[derive(Clone, Copy, Debug, PartialEq, Eq, Structural)]
pub enum GroupingStrategy {
    Protocol,
    Tags,
    Directory,
    /// No grouping (`none`).
    NoGrouping,
}

#[derive(Clone, Copy, Debug, PartialEq, Eq, Structural)]
pub enum PluginType {
    Protocol,
    Assertion,
    DataSource,
    Auth,
    Reporter,
    Monitor,
}

#[derive(Clone, Copy, Debug, PartialEq, Eq, Structural)]
pub enum ConfigFormat {
    Yaml,
    Json,
    Toml,
}

#[derive(Clone, Copy, Debug, PartialEq, Eq, Structural)]
pub enum TemplateCategory {
    RestApi,
    GraphQL,
    Authentication,
    DataValidation,
    Performance,
    Integration,
    Custom,
}

#[derive(Clone, Copy, Debug, PartialEq, Eq, Structural)]
pub enum ImportFormat {
    Postman,
    OpenApi,
    Insomnia,
    Swagger,
}

#[derive(Clone, Copy, Debug, PartialEq, Eq, Structural)]
pub enum ExportFormat {
    Postman,
    OpenApi,
    Yaml,
    Json,
}

#[derive(Clone, Copy, Debug, PartialEq, Eq, Structural)]
pub enum AnalysisDepth {
    Basic,
    Standard,
    Comprehensive,
}

#[derive(Clone, Copy, Debug, PartialEq, Eq, Structural)]
pub enum MetricType {
    Coverage,
    Maintenance,
    Collaboration,
    Quality,
}

#[derive(Clone, Copy, Debug, PartialEq, Eq, Structural)]
pub enum RecommendationPriority {
    Low,
    Medium,
    High,
    Critical,
}

#[derive(Clone, Copy, Debug, PartialEq, Eq, Structural)]
pub enum MaintenanceCategory {
    Structure,
    Assertions,
    DataSources,
    Authentication,
    Performance,
}

#[derive(Clone, Copy, Debug, PartialEq, Eq, Structural)]
pub enum ResultStatus {
    Passed,
    Failed,
    Skipped,
    Error,
}


#[derive(Clone, Copy, Debug, PartialEq, Eq, Structural)]
pub enum ExecutionStrategy {
    Serial,
    Parallel,
    Distributed,
    Interactive,
}

// ---------------------------------------------------------------- command helpers

/// The position of the first `c` in `s`, if any.
pub open spec fn char_position(s: Seq<char>, c: char) -> Option<nat>
    decreases s.len(),
{
    if s.len() == 0 {
        None
    } else if s[0] == c {
        Some(0)
    } else {
        match char_position(s.drop_first(), c) {
            Some(i) => Some(i + 1),
            None => None,
        }
    }
}

proof fn lemma_char_position(s: Seq<char>, c: char, i: int)
    requires
        0 <= i <= s.len(),
        forall|j: int| 0 <= j < i ==> s[j] != c,
    ensures
        i < s.len() && s[i] == c ==> char_position(s, c) == Some(i as nat),
        i == s.len() ==> char_position(s, c) is None,
    decreases i,
{
    if i > 0 {
        lemma_char_position(s.drop_first(), c, i - 1);
    }
}

/// The variables given as `key=value` texts (split at the first `=`; a
/// later text wins on a shared key), or the message for the first text
/// without `=`.
pub open spec fn template_variables(vars: Seq<Seq<char>>) -> Result<Map<Seq<char>, Seq<char>>, Seq<char>>
    decreases vars.len(),
{
    if vars.len() == 0 {
        Ok(Map::empty())
    } else {
        match template_variables(vars.drop_last()) {
            Ok(m) => {
                let v = vars.last();
                match char_position(v, '=') {
                    Some(i) => Ok(m.insert(v.take(i as int), v.skip(i as int + 1))),
                    None => Err("Invalid variable format: "@ + v + ". Use key=value"@),
                }
            },
            Err(e) => Err(e),
        }
    }
}

/// Reads template variables given as `key=value`.
pub fn parse_template_variables(variables: &Vec<String>) -> (r: Result<StrMap<String>, String>)
    ensures
        match template_variables(views(variables@)) {
            Ok(m) => r matches Ok(x) && text_views(x@) == m,
            Err(e) => r matches Err(x) && x@ == e,
        },
{
    let ghost vs = views(variables@);
    let mut out: StrMap<String> = StrMap::new();
    assert(text_views(out@) =~= Map::<Seq<char>, Seq<char>>::empty());
    let mut i: usize = 0;
    assert(vs.take(0) =~= Seq::<Seq<char>>::empty());
    while i < variables.len()
        invariant
            i <= variables@.len(),
            vs == views(variables@),
            vs.len() == variables@.len(),
            template_variables(vs.take(i as int)) == Ok::<Map<Seq<char>, Seq<char>>, Seq<char>>(text_views(out@)),
        decreases variables.len() - i,
    {
        let v = &variables[i];
        proof {
            assert(vs.take(i + 1).drop_last() =~= vs.take(i as int));
            assert(vs.take(i + 1).last() == v@);
        }
        let cs = chars_of(v.as_str());
        let mut j: usize = 0;
        while j < cs.len() && cs[j] != '='
            invariant
                j <= cs@.len(),
                cs@ == v@,
                forall|q: int| 0 <= q < j ==> cs@[q] != '=',
            decreases cs.len() - j,
        {
            j = j + 1;
        }
        proof { lemma_char_position(v@, '=', j as int); }
        if j == cs.len() {
            let mut m = concat("Invalid variable format: ", v.as_str());
            m.append(". Use key=value");
            proof {
                lemma_template_error_stays(vs, i as int + 1);
                assert(m@ =~= "Invalid variable format: "@ + v@ + ". Use key=value"@);
            }
            return Err(m);
        }
        let key = chars_between(&cs, 0, j);
        let value = chars_between(&cs, j + 1, cs.len());
        proof {
            assert(key@ =~= v@.take(j as int));
            assert(value@ =~= v@.skip(j + 1));
        }
        let ghost before = out@;
        out.insert(key, value);
        assert(text_views(out@) =~= text_views(before).insert(v@.take(j as int), v@.skip(j + 1)));
        i = i + 1;
    }
    assert(vs.take(variables@.len() as int) =~= vs);
    Ok(out)
}

proof fn lemma_template_error_stays(vs: Seq<Seq<char>>, j: int)
    requires
        0 <= j <= vs.len(),
        template_variables(vs.take(j)) is Err,
    ensures
        template_variables(vs) == template_variables(vs.take(j)),
    decreases vs.len() - j,
{
    if j < vs.len() {
        assert(vs.take(j + 1).drop_last() =~= vs.take(j));
        lemma_template_error_stays(vs, j + 1);
    } else {
        assert(vs.take(j) =~= vs);
    }
}

/// The file a report format is written to, for the formats that have one.
pub open spec fn report_file_text(format: ReportFormat) -> Option<Seq<char>> {
    match format {
        ReportFormat::Html => Some("report.html"@),
        ReportFormat::Json => Some("report.json"@),
        ReportFormat::Junit => Some("junit.xml"@),
        _ => None,
    }
}

/// The name of the file a report in `format` is written to; none for the
/// formats without a writer.
pub fn report_file_name(format: ReportFormat) -> (r: Option<String>)
    ensures
        match report_file_text(format) {
            Some(t) => r matches Some(x) && x@ == t,
            None => r is None,
        },
{
    match format {
        ReportFormat::Html => Some(owned("report.html")),
        ReportFormat::Json => Some(owned("report.json")),
        ReportFormat::Junit => Some(owned("junit.xml")),
        _ => None,
    }
}

/// The line a dry run prints for a test case: whether its name and URL are set.
pub open spec fn dry_run_text(name: Seq<char>, url: Seq<char>) -> Seq<char> {
    if name.len() == 0 || url.len() == 0 {
        "  ❌ "@ + name + ": Missing required fields"@
    } else {
        "  ✅ "@ + name + ": Valid"@
    }
}

/// The line a dry run prints for a test case.
pub fn dry_run_line(test_case: &TestCase) -> (r: String)
    ensures
        r@ == dry_run_text(test_case.name@, test_case.request.url@),
{
    if test_case.name.as_str().is_empty() || test_case.request.url.as_str().is_empty() {
        concat3("  ❌ ", test_case.name.as_str(), ": Missing required fields")
    } else {
        concat3("  ✅ ", test_case.name.as_str(), ": Valid")
    }
}

/// The lines listing the failed tests: each one's name and, when it has
/// one, its error.
pub open spec fn failure_lines(rs: Seq<TestResult>) -> Seq<Seq<char>>
    decreases rs.len(),
{
    if rs.len() == 0 {
        Seq::empty()
    } else {
        let r = rs.last();
        let before = failure_lines(rs.drop_last());
        if r.success {
            before
        } else {
            let named = before.push("  • "@ + r.test_case_name@);
            match r.error_message {
                Some(e) => named.push("    Error: "@ + e@),
                None => named,
            }
        }
    }
}

/// The lines of a run's summary: the numbers of tests, passed and failed,
/// then the failed tests when there are any.
pub open spec fn summary_lines(rs: Seq<TestResult>) -> Seq<Seq<char>> {
    let passed = successes(rs);
    let failed = rs.len() - passed;
    let head = seq![
        Seq::<char>::empty(),
        "📊 Execution Summary:"@,
        "  Total Tests: "@ + decimal(rs.len()),
        "  Passed: "@ + decimal(passed) + " ✅"@,
        "  Failed: "@ + decimal(failed as nat) + " ❌"@,
    ];
    if failed > 0 {
        head + seq![Seq::<char>::empty(), "❌ Failed Tests:"@] + failure_lines(rs)
    } else {
        head
    }
}

/// The lines of a run's summary.
pub fn execution_summary_lines(execution_result: &ExecutionResult) -> (r: Vec<String>)
    ensures
        views(r@) == summary_lines(execution_result.test_results@),
{
    let rs = &execution_result.test_results;
    let mut passed: usize = 0;
    let mut failures: Vec<String> = Vec::new();
    let mut i: usize = 0;
    assert(rs@.take(0) =~= Seq::<TestResult>::empty());
    assert(views(failures@) =~= Seq::<Seq<char>>::empty());
    while i < rs.len()
        invariant
            i <= rs@.len(),
            passed == successes(rs@.take(i as int)),
            passed <= i,
            views(failures@) == failure_lines(rs@.take(i as int)),
        decreases rs.len() - i,
    {
        let r = &rs[i];
        proof {
            assert(rs@.take(i + 1).drop_last() =~= rs@.take(i as int));
            assert(rs@.take(i + 1).last() == rs@[i as int]);
        }
        if r.success {
            passed = passed + 1;
        } else {
            let ghost before = failures@;
            let named = concat("  • ", r.test_case_name.as_str());
            failures.push(named);
            assert(views(failures@) =~= views(before).push("  • "@ + r.test_case_name@));
            match &r.error_message {
                Some(e) => {
                    let ghost mid = failures@;
                    failures.push(concat("    Error: ", e.as_str()));
                    assert(views(failures@) =~= views(mid).push("    Error: "@ + e@));
                },
                None => {},
            }
        }
        i = i + 1;
    }
    assert(rs@.take(rs@.len() as int) =~= rs@);
    let total = rs.len();
    let failed = total - passed;
    let mut out: Vec<String> = Vec::new();
    out.push(String::new());
    out.push(owned("📊 Execution Summary:"));
    out.push(concat("  Total Tests: ", decimal_text(total as u64).as_str()));
    out.push(concat3("  Passed: ", decimal_text(passed as u64).as_str(), " ✅"));
    out.push(concat3("  Failed: ", decimal_text(failed as u64).as_str(), " ❌"));
    let ghost head = views(out@);
    assert(head =~= seq![
        Seq::<char>::empty(),
        "📊 Execution Summary:"@,
        "  Total Tests: "@ + decimal(rs@.len()),
        "  Passed: "@ + decimal(successes(rs@)) + " ✅"@,
        "  Failed: "@ + decimal((rs@.len() - successes(rs@)) as nat) + " ❌"@,
    ]);
    if failed > 0 {
        out.push(String::new());
        out.push(owned("❌ Failed Tests:"));
        let ghost mid = views(out@);
        let mut k: usize = 0;
        while k < failures.len()
            invariant
                k <= failures@.len(),
                views(out@) == mid + views(failures@).take(k as int),
            decreases failures.len() - k,
        {
            let ghost before = views(out@);
            out.push(copy_string(&failures[k]));
            assert(views(failures@).take(k + 1) =~= views(failures@).take(k as int).push(failures@[k as int]@));
            assert(views(out@) =~= before.push(failures@[k as int]@));
            k = k + 1;
        }
        assert(views(failures@).take(failures@.len() as int) =~= views(failures@));
        assert(mid =~= head + seq![Seq::<char>::empty(), "❌ Failed Tests:"@]);
    }
    out
}

/// The configuration the command line starts from: serial execution with up
/// to 4 concurrent requests, 30 s timeouts, 3 attempts from 1 s doubling up
/// to 10 s, 10 requests per second with bursts of 20, plugins from `plugins`
/// reloaded when they change, reports to `reports` in no format yet, no
/// authentication, JSON data sources.
pub fn cli_default_configuration() -> (c: Configuration)
    ensures
        c.execution.default_strategy@ == "serial"@,
        c.execution.max_concurrency == 4,
        c.execution.request_timeout == 30,
        c.execution.retry.max_attempts == 3,
        c.execution.retry.base_delay_ms == 1000,
        c.execution.retry.max_delay_ms == 10000,
        c.execution.retry.backoff_multiplier_bits == 0x4000_0000_0000_0000,
        c.execution.rate_limit.requests_per_second_bits == 0x4024_0000_0000_0000,
        c.execution.rate_limit.burst_capacity == 20,
        c.plugins.plugin_dir@ == "plugins"@,
        c.plugins.hot_reload,
        c.plugins.auto_load,
        c.plugins.plugins@ == Map::<Seq<char>, JsonValue>::empty(),
        c.reporting.output_dir@ == "reports"@,
        c.reporting.formats@.len() == 0,
        c.reporting.templates@ == Map::<Seq<char>, JsonValue>::empty(),
        c.auth.default_method matches Some(m) && m@ == "none"@,
        c.auth.methods@ == Map::<Seq<char>, JsonValue>::empty(),
        c.data_sources.default_type@ == "json"@,
        c.data_sources.sources@ == Map::<Seq<char>, JsonValue>::empty(),
        c.environments@ == Map::<Seq<char>, EnvironmentConfig>::empty(),
        c.custom@ == Map::<Seq<char>, JsonValue>::empty(),
{
    Configuration {
        execution: ExecutionConfig {
            default_strategy: owned("serial"),
            max_concurrency: 4,
            request_timeout: 30,
            retry: RetryConfig {
                max_attempts: 3,
                base_delay_ms: 1000,
                max_delay_ms: 10000,
                backoff_multiplier_bits: 0x4000_0000_0000_0000,
            },
            rate_limit: RateLimitConfig { requests_per_second_bits: 0x4024_0000_0000_0000, burst_capacity: 20 },
        },
        plugins: ConfigPluginConfig {
            plugin_dir: owned("plugins"),
            hot_reload: true,
            auto_load: true,
            plugins: StrMap::new(),
        },
        reporting: ReportingConfig { output_dir: owned("reports"), formats: Vec::new(), templates: StrMap::new() },
        auth: ConfigAuthConfig { default_method: Some(owned("none")), methods: StrMap::new() },
        data_sources: ConfigDataSourceConfig { default_type: owned("json"), sources: StrMap::new() },
        environments: StrMap::new(),
        custom: StrMap::new(),
    }
}

} // verus!
