//! The messages of `find`, in Japanese as the tool prints them.
use vstd::prelude::*;

verus! {

/// `a`, `b` and `c` one after the other.
fn join3(a: &str, b: &str, c: &str) -> (r: String)
    ensures
        r@ == a@ + b@ + c@,
{
    let mut s = String::from_str(a);
    s.append(b);
    s.append(c);
    s
}

/// `a` to `e` one after the other.
fn join5(a: &str, b: &str, c: &str, d: &str, e: &str) -> (r: String)
    ensures
        r@ == a@ + b@ + c@ + d@ + e@,
{
    let mut s = String::from_str(a);
    s.append(b);
    s.append(c);
    s.append(d);
    s.append(e);
    s
}

/// `a` to `d` one after the other.
fn join4(a: &str, b: &str, c: &str, d: &str) -> (r: String)
    ensures
        r@ == a@ + b@ + c@ + d@,
{
    let mut s = String::from_str(a);
    s.append(b);
    s.append(c);
    s.append(d);
    s
}

/// The text of `err_missing_argument`.
pub open spec fn err_missing_argument_text(opt: Seq<char>) -> Seq<char> {
    "エラー: '"@ + opt + "' には引数が必要です"@
}

/// An option that needs an argument got none.
pub fn err_missing_argument(opt: &str) -> (r: String)
    ensures
        r@ == err_missing_argument_text(opt@),
{
    join3("エラー: '", opt, "' には引数が必要です")
}

/// The text of `err_invalid_argument`.
pub open spec fn err_invalid_argument_text(opt: Seq<char>, arg: Seq<char>) -> Seq<char> {
    "エラー: '"@ + opt + "' の引数 '"@ + arg + "' が不正です"@
}

/// An option's argument is not valid.
pub fn err_invalid_argument(opt: &str, arg: &str) -> (r: String)
    ensures
        r@ == err_invalid_argument_text(opt@, arg@),
{
    join5("エラー: '", opt, "' の引数 '", arg, "' が不正です")
}

/// The text of `err_unknown_option`.
pub open spec fn err_unknown_option_text(opt: Seq<char>) -> Seq<char> {
    "エラー: 不明なオプション '"@ + opt + "'"@
}

/// A word is not an option, test or action.
pub fn err_unknown_option(opt: &str) -> (r: String)
    ensures
        r@ == err_unknown_option_text(opt@),
{
    join3("エラー: 不明なオプション '", opt, "'")
}

/// The text of `err_path_not_found`.
pub open spec fn err_path_not_found_text(path: Seq<char>) -> Seq<char> {
    "エラー: パス '"@ + path + "' が見つかりません"@
}

/// A start path does not exist.
pub fn err_path_not_found(path: &str) -> (r: String)
    ensures
        r@ == err_path_not_found_text(path@),
{
    join3("エラー: パス '", path, "' が見つかりません")
}

/// The text of `err_permission_denied`.
pub open spec fn err_permission_denied_text(path: Seq<char>) -> Seq<char> {
    "エラー: '"@ + path + "' へのアクセスが拒否されました"@
}

/// Access to a path was refused.
pub fn err_permission_denied(path: &str) -> (r: String)
    ensures
        r@ == err_permission_denied_text(path@),
{
    join3("エラー: '", path, "' へのアクセスが拒否されました")
}

/// The text of `err_invalid_type`.
pub open spec fn err_invalid_type_text(t: Seq<char>) -> Seq<char> {
    "エラー: 不正なファイルタイプ '"@ + t + "' (有効: b, c, d, f, l, p, s)"@
}

/// A `-type` argument is not valid.
pub fn err_invalid_type(t: &str) -> (r: String)
    ensures
        r@ == err_invalid_type_text(t@),
{
    join3("エラー: 不正なファイルタイプ '", t, "' (有効: b, c, d, f, l, p, s)")
}

/// The text of `err_invalid_size`.
pub open spec fn err_invalid_size_text(s: Seq<char>) -> Seq<char> {
    "エラー: 不正なサイズ指定 '"@ + s + "' (例: +1M, -100k, 512c)"@
}

/// A `-size` argument is not valid.
pub fn err_invalid_size(s: &str) -> (r: String)
    ensures
        r@ == err_invalid_size_text(s@),
{
    join3("エラー: 不正なサイズ指定 '", s, "' (例: +1M, -100k, 512c)")
}

/// The text of `err_invalid_time`.
pub open spec fn err_invalid_time_text(s: Seq<char>) -> Seq<char> {
    "エラー: 不正な時間指定 '"@ + s + "' (例: +7, -1, 0)"@
}

/// A time argument is not valid.
pub fn err_invalid_time(s: &str) -> (r: String)
    ensures
        r@ == err_invalid_time_text(s@),
{
    join3("エラー: 不正な時間指定 '", s, "' (例: +7, -1, 0)")
}

/// The text of `err_invalid_perm`.
pub open spec fn err_invalid_perm_text(s: Seq<char>) -> Seq<char> {
    "エラー: 不正なパーミッション '"@ + s + "' (例: 644, -755, /u+x)"@
}

/// A `-perm` argument is not valid.
pub fn err_invalid_perm(s: &str) -> (r: String)
    ensures
        r@ == err_invalid_perm_text(s@),
{
    join3("エラー: 不正なパーミッション '", s, "' (例: 644, -755, /u+x)")
}

/// The text of `err_invalid_regex`.
pub open spec fn err_invalid_regex_text(s: Seq<char>, err: Seq<char>) -> Seq<char> {
    "エラー: 不正な正規表現 '"@ + s + "': "@ + err
}

/// A regular expression does not compile.
pub fn err_invalid_regex(s: &str, err: &str) -> (r: String)
    ensures
        r@ == err_invalid_regex_text(s@, err@),
{
    join4("エラー: 不正な正規表現 '", s, "': ", err)
}

/// The text of `err_invalid_regextype`.
pub open spec fn err_invalid_regextype_text(name: Seq<char>) -> Seq<char> {
    "エラー: 不明な正規表現の種類 '"@ + name + "'"@
}

/// A `-regextype` name is not known.
pub fn err_invalid_regextype(name: &str) -> (r: String)
    ensures
        r@ == err_invalid_regextype_text(name@),
{
    join3("エラー: 不明な正規表現の種類 '", name, "'")
}

/// The text of `err_exec_failed`.
pub open spec fn err_exec_failed_text(cmd: Seq<char>, err: Seq<char>) -> Seq<char> {
    "エラー: コマンド '"@ + cmd + "' の実行に失敗しました: "@ + err
}

/// A command could not be started.
pub fn err_exec_failed(cmd: &str, err: &str) -> (r: String)
    ensures
        r@ == err_exec_failed_text(cmd@, err@),
{
    join4("エラー: コマンド '", cmd, "' の実行に失敗しました: ", err)
}

/// The text of `err_delete_failed`.
pub open spec fn err_delete_failed_text(path: Seq<char>, err: Seq<char>) -> Seq<char> {
    "エラー: '"@ + path + "' の削除に失敗しました: "@ + err
}

/// A file could not be removed.
pub fn err_delete_failed(path: &str, err: &str) -> (r: String)
    ensures
        r@ == err_delete_failed_text(path@, err@),
{
    join4("エラー: '", path, "' の削除に失敗しました: ", err)
}

/// The text of `err_user_not_found`.
pub open spec fn err_user_not_found_text(user: Seq<char>) -> Seq<char> {
    "エラー: ユーザー '"@ + user + "' が見つかりません"@
}

/// A user name is not known.
pub fn err_user_not_found(user: &str) -> (r: String)
    ensures
        r@ == err_user_not_found_text(user@),
{
    join3("エラー: ユーザー '", user, "' が見つかりません")
}

/// The text of `err_group_not_found`.
pub open spec fn err_group_not_found_text(group: Seq<char>) -> Seq<char> {
    "エラー: グループ '"@ + group + "' が見つかりません"@
}

/// A group name is not known.
pub fn err_group_not_found(group: &str) -> (r: String)
    ensures
        r@ == err_group_not_found_text(group@),
{
    join3("エラー: グループ '", group, "' が見つかりません")
}

/// The text of `err_file_not_found`.
pub open spec fn err_file_not_found_text(file: Seq<char>) -> Seq<char> {
    "エラー: ファイル '"@ + file + "' が見つかりません"@
}

/// A reference file does not exist.
pub fn err_file_not_found(file: &str) -> (r: String)
    ensures
        r@ == err_file_not_found_text(file@),
{
    join3("エラー: ファイル '", file, "' が見つかりません")
}

/// The text of `err_birth_time_unsupported`.
pub open spec fn err_birth_time_unsupported_text(file: Seq<char>) -> Seq<char> {
    "エラー: '"@ + file + "' の作成時刻を取得できません"@
}

/// A file has no creation time to compare with.
pub fn err_birth_time_unsupported(file: &str) -> (r: String)
    ensures
        r@ == err_birth_time_unsupported_text(file@),
{
    join3("エラー: '", file, "' の作成時刻を取得できません")
}

/// The text of `err_cannot_open_file`.
pub open spec fn err_cannot_open_file_text(file: Seq<char>, err: Seq<char>) -> Seq<char> {
    "エラー: ファイル '"@ + file + "' を開けません: "@ + err
}

/// An output file could not be opened.
pub fn err_cannot_open_file(file: &str, err: &str) -> (r: String)
    ensures
        r@ == err_cannot_open_file_text(file@, err@),
{
    join4("エラー: ファイル '", file, "' を開けません: ", err)
}

/// The text of `warn_cannot_read_dir`.
pub open spec fn warn_cannot_read_dir_text(path: Seq<char>) -> Seq<char> {
    "警告: ディレクトリ '"@ + path + "' を読めません"@
}

/// A directory could not be read.
pub fn warn_cannot_read_dir(path: &str) -> (r: String)
    ensures
        r@ == warn_cannot_read_dir_text(path@),
{
    join3("警告: ディレクトリ '", path, "' を読めません")
}

/// The text of `warn_cannot_stat`.
pub open spec fn warn_cannot_stat_text(path: Seq<char>) -> Seq<char> {
    "警告: '"@ + path + "' の情報を取得できません"@
}

/// A file's information could not be read.
pub fn warn_cannot_stat(path: &str) -> (r: String)
    ensures
        r@ == warn_cannot_stat_text(path@),
{
    join3("警告: '", path, "' の情報を取得できません")
}

/// The text of `prompt_exec`.
pub open spec fn prompt_exec_text(cmd: Seq<char>, file: Seq<char>) -> Seq<char> {
    "< "@ + cmd + " ... "@ + file + " >? "@
}

/// The question that `-ok` asks before running a command.
pub fn prompt_exec(cmd: &str, file: &str) -> (r: String)
    ensures
        r@ == prompt_exec_text(cmd@, file@),
{
    join5("< ", cmd, " ... ", file, " >? ")
}

/// The text of `err_ok_no_batch`.
pub open spec fn err_ok_no_batch_text(opt: Seq<char>) -> Seq<char> {
    "エラー: "@ + opt + " は `{} +` 終端をサポートしません（`{} \\;` を使用してください）"@
}

/// `-ok` was given the `{} +` terminator.
pub fn err_ok_no_batch(opt: &str) -> (r: String)
    ensures
        r@ == err_ok_no_batch_text(opt@),
{
    join3("エラー: ", opt, " は `{} +` 終端をサポートしません（`{} \\;` を使用してください）")
}

/// The text of `err_exec_batch_partial_placeholder`.
pub open spec fn err_exec_batch_partial_placeholder_text(arg: Seq<char>) -> Seq<char> {
    "エラー: '-exec ... {} +' では {} は単独トークンである必要がありますが '"@ + arg + "' が指定されました"@
}

/// `{}` is part of a larger word before `+`.
pub fn err_exec_batch_partial_placeholder(arg: &str) -> (r: String)
    ensures
        r@ == err_exec_batch_partial_placeholder_text(arg@),
{
    join3("エラー: '-exec ... {} +' では {} は単独トークンである必要がありますが '", arg, "' が指定されました")
}

/// The text of `err_missing_exec_terminator`.
pub open spec fn err_missing_exec_terminator_text() -> Seq<char> {
    "エラー: -exec/-ok には ';' または '+' が必要です"@
}

/// `-exec` or `-ok` has no terminator.
pub fn err_missing_exec_terminator() -> (r: String)
    ensures
        r@ == err_missing_exec_terminator_text(),
{
    String::from_str("エラー: -exec/-ok には ';' または '+' が必要です")
}

/// The text of `err_unmatched_paren`.
pub open spec fn err_unmatched_paren_text() -> Seq<char> {
    "エラー: 括弧が対応していません"@
}

/// Parentheses do not pair up.
pub fn err_unmatched_paren() -> (r: String)
    ensures
        r@ == err_unmatched_paren_text(),
{
    String::from_str("エラー: 括弧が対応していません")
}

/// The text of `err_delete_current_dir`.
pub open spec fn err_delete_current_dir_text() -> Seq<char> {
    "エラー: '.' は削除できません"@
}

/// `-delete` was asked to remove `.`.
pub fn err_delete_current_dir() -> (r: String)
    ensures
        r@ == err_delete_current_dir_text(),
{
    String::from_str("エラー: '.' は削除できません")
}

/// The text of `err_expression_required`.
pub open spec fn err_expression_required_text() -> Seq<char> {
    "式が必要です"@
}

/// An expression ended where a primary was expected.
pub fn err_expression_required() -> (r: String)
    ensures
        r@ == err_expression_required_text(),
{
    String::from_str("式が必要です")
}

} // verus!
