//! The merge engine: reconciles the built-in defaults, the primary file and
//! every included file into one flat map, under explicit redefinition grants.

use vstd::prelude::*;
use vstd::string::StringExecFns;
use indexmap::IndexSet;
use crate::error::ArcellaUtilsError;
use crate::flat::{flat_entry, flat_keys, flat_view, put, store, FlatEntry};
use crate::ordered::{
    entry_keys, item_position, key_position, lemma_item_position, lemma_item_position_push, map_entries,
    map_get, map_get_index, map_get_index_of, map_insert, map_len, map_new, map_sort_keys,
    set_get_index_of, set_items, ConfigValues,
};
use crate::paths::{join_path, joined_path, normal_path, normalize_path};
use crate::text::{
    ascending, decimal, decimal_digits, dotted, ends_with_spec, join_dotted, starts_with,
    starts_with_spec, strip_suffix, texts,
};
use crate::types::{ConfigLoadParams, TomlFileData};
use crate::value::{Value, ValueView};
use crate::warnings::{lemma_warnings_view_push, warnings_view, ConfigLoadWarning, WarningView};

verus! {

/// Key ending that grants a redefinition instead of assigning a value.
pub const REDEF_SUFFIX: &'static str = "#redef";

/// File name of the primary configuration file.
pub const MAIN_CONFIG_FILENAME: &'static str = "arcella.toml";

/// Name under which the built-in defaults are registered.
pub const DEFAULT_CONFIG_FILENAME: &'static str = "default_config.toml";

/// What the reconciliation pass knows of one key.
pub ghost struct Candidate {
    /// The key, without a grant suffix.
    pub key: Seq<char>,
    /// The value that currently wins.
    pub value: ValueView,
    /// The layer that supplied the value.
    pub layer: usize,
    /// The file that supplied the value.
    pub file: usize,
    /// The file that last granted a redefinition, if any did.
    pub grant: Option<usize>,
}

/// State of the reconciliation pass.
pub ghost struct Reconciled {
    pub candidates: Seq<Candidate>,
    pub warnings: Seq<WarningView>,
}

/// State of the application pass.
pub ghost struct Applied {
    pub values: Seq<FlatEntry>,
    pub warnings: Seq<WarningView>,
}

/// Where a candidate's value came from and who granted its redefinition.
#[derive(Debug, Clone, Copy)]
pub struct Origin {
    pub layer: usize,
    pub grant: Option<usize>,
}

/// The content of every file of `files`, in order.
pub open spec fn layers_view(files: Seq<TomlFileData>) -> Seq<Seq<FlatEntry>> {
    Seq::new(files.len(), |i: int| flat_view(files[i].values))
}

/// The keys of `candidates`, in order.
pub open spec fn candidate_keys(candidates: Seq<Candidate>) -> Seq<Seq<char>> {
    Seq::new(candidates.len(), |i: int| candidates[i].key)
}

/// Whether `key` carries the grant suffix.
pub open spec fn is_redef(key: Seq<char>) -> bool {
    ends_with_spec(key, REDEF_SUFFIX@)
}

/// `key` without the grant suffix, if it carries one.
pub open spec fn redef_target(key: Seq<char>) -> Seq<char> {
    if is_redef(key) {
        key.subrange(0, key.len() - REDEF_SUFFIX@.len())
    } else {
        key
    }
}

/// The file name that stands for layer `layer` in warnings.
pub open spec fn layer_file(layer: usize) -> Seq<char> {
    "layer_"@ + decimal_digits(layer as nat) + ".toml"@
}

/// Reported when a value displaces one from a lower layer without a grant.
pub open spec fn displaced_warning(key: Seq<char>, displaced_file: usize, layer: usize) -> WarningView {
    WarningView::ValueError {
        key,
        error: "Value from file "@ + decimal_digits(displaced_file as nat)
            + " ignored due to no #redef flag in layer "@ + decimal_digits(layer as nat),
        file: layer_file(layer),
    }
}

/// Reported when a default is kept because the primary file granted nothing.
pub open spec fn ungranted_warning(key: Seq<char>, file: usize, layer: usize) -> WarningView {
    WarningView::ValueError {
        key,
        error: "Value from file "@ + decimal_digits(file as nat)
            + " ignored due to #redef missing in arcella.toml"@,
        file: layer_file(layer),
    }
}

/// Reported when a key is dropped because the defaults do not know it.
pub open spec fn unknown_key_warning(key: Seq<char>, layer: usize) -> WarningView {
    WarningView::ValueError {
        key,
        error: "Value from layer "@ + decimal_digits(layer as nat)
            + " ignored due to missing in default config"@,
        file: layer_file(layer),
    }
}

/// One step of the reconciliation pass: entry `e` of layer `layer` meets the
/// candidates gathered from the layers below it.
pub open spec fn reconcile_one(st: Reconciled, e: FlatEntry, layer: usize) -> Reconciled {
    let key = redef_target(e.key);
    let at = item_position(candidate_keys(st.candidates), key);
    if at < 0 {
        Reconciled {
            candidates: st.candidates.push(
                Candidate { key, value: e.value, layer, file: e.file, grant: None },
            ),
            warnings: st.warnings,
        }
    } else if is_redef(e.key) {
        Reconciled {
            candidates: st.candidates.update(
                at,
                Candidate {
                    key: st.candidates[at].key,
                    value: st.candidates[at].value,
                    layer: st.candidates[at].layer,
                    file: st.candidates[at].file,
                    grant: Some(e.file),
                },
            ),
            warnings: st.warnings,
        }
    } else {
        Reconciled {
            candidates: st.candidates.update(
                at,
                Candidate { key, value: e.value, layer, file: e.file, grant: st.candidates[at].grant },
            ),
            warnings: st.warnings.push(displaced_warning(key, st.candidates[at].file, layer)),
        }
    }
}

/// The reconciliation pass over the entries of one layer, first to last.
pub open spec fn reconcile_file(st: Reconciled, entries: Seq<FlatEntry>, layer: usize) -> Reconciled
    decreases entries.len(),
{
    if entries.len() == 0 {
        st
    } else {
        reconcile_one(reconcile_file(st, entries.drop_last(), layer), entries.last(), layer)
    }
}

/// The reconciliation pass over the layers from the last down to `from`.
pub open spec fn reconcile_layers(st: Reconciled, layers: Seq<Seq<FlatEntry>>, from: int) -> Reconciled
    decreases layers.len() - from,
{
    if from < 0 || from >= layers.len() {
        st
    } else {
        reconcile_file(reconcile_layers(st, layers, from + 1), layers[from], from as usize)
    }
}

/// The defaults, every entry attributed to `default_idx`.
pub open spec fn seed(defaults: Seq<FlatEntry>, default_idx: usize) -> Seq<FlatEntry>
    decreases defaults.len(),
{
    if defaults.len() == 0 {
        Seq::empty()
    } else {
        put(
            seed(defaults.drop_last(), default_idx),
            FlatEntry { key: defaults.last().key, value: defaults.last().value, file: default_idx },
        )
    }
}

/// Whether a key unknown to the defaults may be introduced: it lies in the
/// `custom` or the `modules` section below `prefix`.
pub open spec fn is_newable(key: Seq<char>, prefix: Seq<char>) -> bool {
    if prefix.len() == 0 {
        starts_with_spec(key, "custom."@) || starts_with_spec(key, "modules."@)
    } else {
        starts_with_spec(key, prefix + ".custom."@) || starts_with_spec(key, prefix + ".modules."@)
    }
}

/// One step of the application pass: candidate `c` meets the map seeded from
/// the defaults.
pub open spec fn apply_one(st: Applied, c: Candidate, main_idx: usize, prefix: Seq<char>) -> Applied {
    let at = item_position(flat_keys(st.values), c.key);
    if at >= 0 {
        if c.file == main_idx || c.grant == Some(main_idx) {
            Applied {
                values: st.values.update(at, FlatEntry { key: c.key, value: c.value, file: c.file }),
                warnings: st.warnings,
            }
        } else {
            Applied {
                values: st.values,
                warnings: st.warnings.push(ungranted_warning(c.key, c.file, c.layer)),
            }
        }
    } else if is_newable(c.key, prefix) {
        Applied {
            values: st.values.push(FlatEntry { key: c.key, value: c.value, file: c.file }),
            warnings: st.warnings,
        }
    } else {
        Applied { values: st.values, warnings: st.warnings.push(unknown_key_warning(c.key, c.layer)) }
    }
}

/// The application pass over `candidates`, first to last.
pub open spec fn apply_all(st: Applied, candidates: Seq<Candidate>, main_idx: usize, prefix: Seq<char>) -> Applied
    decreases candidates.len(),
{
    if candidates.len() == 0 {
        st
    } else {
        apply_one(
            apply_all(st, candidates.drop_last(), main_idx, prefix),
            candidates.last(),
            main_idx,
            prefix,
        )
    }
}

/// The merge of `defaults` with `layers`, of which layer 0 is the primary
/// file, and the warnings it adds to `warnings`.
pub open spec fn merged(
    warnings: Seq<WarningView>,
    defaults: Seq<FlatEntry>,
    layers: Seq<Seq<FlatEntry>>,
    main_idx: usize,
    default_idx: usize,
    prefix: Seq<char>,
) -> Applied {
    let found = reconcile_layers(Reconciled { candidates: Seq::empty(), warnings }, layers, 0);
    apply_all(
        Applied { values: seed(defaults, default_idx), warnings: found.warnings },
        found.candidates,
        main_idx,
        prefix,
    )
}

/// The candidates held by a map and the origins kept beside it.
pub open spec fn candidates_of(entries: Seq<(Seq<char>, (Value, usize))>, origins: Seq<Origin>) -> Seq<Candidate> {
    Seq::new(
        entries.len(),
        |i: int|
            Candidate {
                key: flat_entry(entries[i]).key,
                value: flat_entry(entries[i]).value,
                layer: origins[i].layer,
                file: flat_entry(entries[i]).file,
                grant: origins[i].grant,
            },
    )
}

/// The file name that stands for layer `layer` in warnings.
fn layer_file_name(layer: usize) -> (r: String)
    ensures
        r@ == layer_file(layer),
{
    let mut name = String::from_str("layer_");
    name.append(decimal(layer).as_str());
    name.append(".toml");
    name
}

/// Whether a key unknown to the defaults may be introduced below `prefix`.
pub fn is_newable_key(key: &str, prefix: &str) -> (r: bool)
    ensures
        r == is_newable(key@, prefix@),
{
    if prefix.unicode_len() == 0 {
        starts_with(key, "custom.") || starts_with(key, "modules.")
    } else {
        let mut custom = String::from_str(prefix);
        custom.append(".custom.");
        let mut modules = String::from_str(prefix);
        modules.append(".modules.");
        starts_with(key, custom.as_str()) || starts_with(key, modules.as_str())
    }
}

/// One step of the reconciliation pass on the stored candidates.
fn reconcile_entry(
    found: &mut ConfigValues,
    origins: &mut Vec<Origin>,
    key: &String,
    value: &Value,
    file_idx: usize,
    layer: usize,
    warnings: &mut Vec<ConfigLoadWarning>,
)
    requires
        old(origins)@.len() == map_entries(*old(found)).len(),
    ensures
        final(origins)@.len() == map_entries(*final(found)).len(),
        (Reconciled {
            candidates: candidates_of(map_entries(*final(found)), final(origins)@),
            warnings: warnings_view(final(warnings)@),
        }) == reconcile_one(
            Reconciled {
                candidates: candidates_of(map_entries(*old(found)), old(origins)@),
                warnings: warnings_view(old(warnings)@),
            },
            FlatEntry { key: key@, value: value@, file: file_idx },
            layer,
        ),
{
    let ghost before = candidates_of(map_entries(*found), origins@);
    let ghost entries = map_entries(*found);
    let stripped = strip_suffix(key.as_str(), REDEF_SUFFIX);
    let granting = stripped.is_some();
    let actual_key = match stripped {
        Some(head) => head,
        None => key.clone(),
    };
    assert(actual_key@ == redef_target(key@));
    assert(granting == is_redef(key@));
    proof {
        assert(candidate_keys(before) =~= entry_keys(entries));
        lemma_item_position(entry_keys(entries), actual_key@);
    }
    match map_get_index_of(found, actual_key.as_str()) {
        None => {
            map_insert(found, actual_key, (value.clone(), file_idx));
            origins.push(Origin { layer, grant: None });
            proof {
                assert(candidates_of(map_entries(*found), origins@) =~= before.push(
                    Candidate {
                        key: redef_target(key@),
                        value: value@,
                        layer,
                        file: file_idx,
                        grant: None,
                    },
                ));
            }
        },
        Some(at) => {
            if granting {
                let origin = origins[at];
                origins.set(at, Origin { layer: origin.layer, grant: Some(file_idx) });
                proof {
                    assert(candidates_of(map_entries(*found), origins@) =~= before.update(
                        at as int,
                        Candidate {
                            key: before[at as int].key,
                            value: before[at as int].value,
                            layer: before[at as int].layer,
                            file: before[at as int].file,
                            grant: Some(file_idx),
                        },
                    ));
                }
            } else {
                let displaced_file = match map_get_index(found, at) {
                    Some((_, stored)) => stored.1,
                    None => 0,
                };
                let mut error = String::from_str("Value from file ");
                error.append(decimal(displaced_file).as_str());
                error.append(" ignored due to no #redef flag in layer ");
                error.append(decimal(layer).as_str());
                let warning = ConfigLoadWarning::ValueError {
                    key: actual_key.clone(),
                    error,
                    file: layer_file_name(layer),
                };
                proof {
                    lemma_warnings_view_push(warnings@, warning);
                }
                warnings.push(warning);
                let origin = origins[at];
                map_insert(found, actual_key, (value.clone(), file_idx));
                origins.set(at, Origin { layer, grant: origin.grant });
                proof {
                    assert(candidates_of(map_entries(*found), origins@) =~= before.update(
                        at as int,
                        Candidate {
                            key: redef_target(key@),
                            value: value@,
                            layer,
                            file: file_idx,
                            grant: before[at as int].grant,
                        },
                    ));
                }
            }
        },
    }
}

/// One step of the application pass on the stored result.
fn apply_candidate(
    merged_values: &mut ConfigValues,
    key: &String,
    value: &Value,
    file_idx: usize,
    origin: Origin,
    main_idx: usize,
    prefix: &str,
    warnings: &mut Vec<ConfigLoadWarning>,
)
    ensures
        (Applied { values: flat_view(*final(merged_values)), warnings: warnings_view(final(warnings)@) })
            == apply_one(
            Applied { values: flat_view(*old(merged_values)), warnings: warnings_view(old(warnings)@) },
            Candidate { key: key@, value: value@, layer: origin.layer, file: file_idx, grant: origin.grant },
            main_idx,
            prefix@,
        ),
{
    let ghost before = flat_view(*merged_values);
    proof {
        assert(flat_keys(before) =~= entry_keys(map_entries(*merged_values)));
        lemma_item_position(entry_keys(map_entries(*merged_values)), key@);
    }
    match map_get_index_of(merged_values, key.as_str()) {
        Some(at) => {
            let granted = match origin.grant {
                Some(grantor) => grantor == main_idx,
                None => false,
            };
            if file_idx == main_idx || granted {
                map_insert(merged_values, key.clone(), (value.clone(), file_idx));
                proof {
                    assert(flat_view(*merged_values) =~= before.update(
                        at as int,
                        FlatEntry { key: key@, value: value@, file: file_idx },
                    ));
                }
            } else {
                let mut error = String::from_str("Value from file ");
                error.append(decimal(file_idx).as_str());
                error.append(" ignored due to #redef missing in arcella.toml");
                let warning = ConfigLoadWarning::ValueError {
                    key: key.clone(),
                    error,
                    file: layer_file_name(origin.layer),
                };
                proof {
                    lemma_warnings_view_push(warnings@, warning);
                }
                warnings.push(warning);
            }
        },
        None => {
            if is_newable_key(key.as_str(), prefix) {
                map_insert(merged_values, key.clone(), (value.clone(), file_idx));
                proof {
                    assert(flat_view(*merged_values) =~= before.push(
                        FlatEntry { key: key@, value: value@, file: file_idx },
                    ));
                }
            } else {
                let mut error = String::from_str("Value from layer ");
                error.append(decimal(origin.layer).as_str());
                error.append(" ignored due to missing in default config");
                let warning = ConfigLoadWarning::ValueError {
                    key: key.clone(),
                    error,
                    file: layer_file_name(origin.layer),
                };
                proof {
                    lemma_warnings_view_push(warnings@, warning);
                }
                warnings.push(warning);
            }
        },
    }
}

/// Merges the defaults with the loaded files, of which `configs[0]` is the
/// primary file, under the indices of the primary file and of the defaults.
///
/// Files are reconciled from the last to the first, so that a file nearer to
/// the primary one displaces what deeper ones set; a key ending in `#redef`
/// grants a redefinition instead of setting a value. The result starts from
/// the defaults. A reconciled value replaces a default only where the primary
/// file set it or granted its redefinition, and a key unknown to the defaults
/// is admitted only in the `custom` and `modules` sections below `prefix`.
/// Every rejection is reported in `warnings`; nothing fails.
pub fn merge_layers(
    default_config: &TomlFileData,
    configs: &Vec<TomlFileData>,
    main_idx: usize,
    default_idx: usize,
    prefix: &str,
    warnings: &mut Vec<ConfigLoadWarning>,
) -> (result: ConfigValues)
    ensures
        flat_view(result) == merged(
            warnings_view(old(warnings)@),
            flat_view(default_config.values),
            layers_view(configs@),
            main_idx,
            default_idx,
            prefix@,
        ).values,
        warnings_view(final(warnings)@) == merged(
            warnings_view(old(warnings)@),
            flat_view(default_config.values),
            layers_view(configs@),
            main_idx,
            default_idx,
            prefix@,
        ).warnings,
{
    let ghost start = Reconciled { candidates: Seq::empty(), warnings: warnings_view(warnings@) };
    let ghost layers = layers_view(configs@);
    let mut found = map_new();
    let mut origins: Vec<Origin> = Vec::new();
    let mut layer: usize = configs.len();
    proof {
        assert(candidates_of(map_entries(found), origins@) =~= Seq::<Candidate>::empty());
    }
    while layer > 0
        invariant
            layer <= configs.len(),
            layers == layers_view(configs@),
            origins@.len() == map_entries(found).len(),
            (Reconciled {
                candidates: candidates_of(map_entries(found), origins@),
                warnings: warnings_view(warnings@),
            }) == reconcile_layers(start, layers, layer as int),
        decreases layer,
    {
        layer -= 1;
        let config = &configs[layer];
        let count = map_len(&config.values);
        let ghost below = reconcile_layers(start, layers, layer + 1);
        let ghost entries = flat_view(config.values);
        let mut k: usize = 0;
        proof {
            assert(entries == layers[layer as int]);
            assert(entries.subrange(0, 0) =~= Seq::<FlatEntry>::empty());
        }
        while k < count
            invariant
                k <= count,
                count == map_entries(config.values).len(),
                entries == flat_view(config.values),
                origins@.len() == map_entries(found).len(),
                (Reconciled {
                    candidates: candidates_of(map_entries(found), origins@),
                    warnings: warnings_view(warnings@),
                }) == reconcile_file(below, entries.subrange(0, k as int), layer),
            decreases count - k,
        {
            match map_get_index(&config.values, k) {
                Some((key, stored)) => {
                    proof {
                        let upto = entries.subrange(0, k + 1);
                        assert(upto.drop_last() =~= entries.subrange(0, k as int));
                        assert(upto.last() == FlatEntry { key: key@, value: stored.0@, file: stored.1 });
                    }
                    reconcile_entry(&mut found, &mut origins, key, &stored.0, stored.1, layer, warnings);
                },
                None => {},
            }
            k += 1;
        }
        proof {
            assert(entries.subrange(0, count as int) =~= entries);
        }
    }
    let ghost reconciled = reconcile_layers(start, layers, 0);
    let ghost defaults = flat_view(default_config.values);
    let mut merged_values = map_new();
    let default_count = map_len(&default_config.values);
    let mut d: usize = 0;
    proof {
        assert(flat_view(merged_values) =~= Seq::<FlatEntry>::empty());
        assert(defaults.subrange(0, 0) =~= Seq::<FlatEntry>::empty());
    }
    while d < default_count
        invariant
            d <= default_count,
            default_count == map_entries(default_config.values).len(),
            defaults == flat_view(default_config.values),
            flat_view(merged_values) == seed(defaults.subrange(0, d as int), default_idx),
        decreases default_count - d,
    {
        match map_get_index(&default_config.values, d) {
            Some((key, stored)) => {
                proof {
                    let upto = defaults.subrange(0, d + 1);
                    assert(upto.drop_last() =~= defaults.subrange(0, d as int));
                    assert(upto.last().key == key@ && upto.last().value == stored.0@);
                }
                store(&mut merged_values, key.clone(), stored.0.clone(), default_idx);
            },
            None => {},
        }
        d += 1;
    }
    proof {
        assert(defaults.subrange(0, default_count as int) =~= defaults);
    }
    let ghost seeded = Applied { values: seed(defaults, default_idx), warnings: reconciled.warnings };
    let candidate_count = map_len(&found);
    let mut c: usize = 0;
    proof {
        assert(reconciled.candidates.subrange(0, 0) =~= Seq::<Candidate>::empty());
    }
    while c < candidate_count
        invariant
            c <= candidate_count,
            candidate_count == map_entries(found).len(),
            origins@.len() == map_entries(found).len(),
            reconciled.candidates == candidates_of(map_entries(found), origins@),
            (Applied { values: flat_view(merged_values), warnings: warnings_view(warnings@) }) == apply_all(
                seeded,
                reconciled.candidates.subrange(0, c as int),
                main_idx,
                prefix@,
            ),
        decreases candidate_count - c,
    {
        match map_get_index(&found, c) {
            Some((key, stored)) => {
                proof {
                    let upto = reconciled.candidates.subrange(0, c + 1);
                    assert(upto.drop_last() =~= reconciled.candidates.subrange(0, c as int));
                }
                apply_candidate(
                    &mut merged_values,
                    key,
                    &stored.0,
                    stored.1,
                    origins[c],
                    main_idx,
                    prefix,
                    warnings,
                );
            },
            None => {},
        }
        c += 1;
    }
    proof {
        assert(reconciled.candidates.subrange(0, candidate_count as int) =~= reconciled.candidates);
    }
    merged_values
}

/// Position of the primary file among `files`, for the directory `config_dir`.
pub open spec fn main_position(files: Seq<Seq<char>>, config_dir: Seq<char>) -> int {
    item_position(files, normal_path(joined_path(config_dir, MAIN_CONFIG_FILENAME@)))
}

/// Position of the built-in defaults among `files`.
pub open spec fn default_position(files: Seq<Seq<char>>) -> int {
    item_position(files, DEFAULT_CONFIG_FILENAME@)
}

/// Merges the defaults with the loaded files into the final configuration.
///
/// `config_files` is the index table of the run. The primary file is the one
/// registered as `arcella.toml` in `params.config_dir`, by its path in
/// normal form; the defaults are registered as `default_config.toml`. Where
/// either is not registered the merge is refused and nothing is reported.
/// Otherwise the result and the warnings are those of [`merge_layers`] under
/// the two indices and the dotted `params.prefix`.
pub fn merge_config(
    default_config: &TomlFileData,
    configs: &Vec<TomlFileData>,
    config_files: &IndexSet<String>,
    params: &ConfigLoadParams,
    warnings: &mut Vec<ConfigLoadWarning>,
) -> (result: Result<ConfigValues, ArcellaUtilsError>)
    ensures
        match result {
            Ok(values) => {
                let main_at = main_position(set_items(*config_files), params.config_dir@);
                let default_at = default_position(set_items(*config_files));
                let outcome = merged(
                    warnings_view(old(warnings)@),
                    flat_view(default_config.values),
                    layers_view(configs@),
                    main_at as usize,
                    default_at as usize,
                    dotted(texts(params.prefix@)),
                );
                &&& main_at >= 0
                &&& default_at >= 0
                &&& flat_view(values) == outcome.values
                &&& warnings_view(final(warnings)@) == outcome.warnings
            },
            Err(e) => {
                &&& main_position(set_items(*config_files), params.config_dir@) < 0 || default_position(
                    set_items(*config_files),
                ) < 0
                &&& e is Internal
                &&& final(warnings)@ == old(warnings)@
            },
        },
{
    let main_path = normalize_path(join_path(params.config_dir.as_str(), MAIN_CONFIG_FILENAME).as_str());
    let main_idx = match set_get_index_of(config_files, main_path.as_str()) {
        Some(at) => at,
        None => {
            return Err(
                ArcellaUtilsError::Internal(String::from_str("the primary configuration file is not registered")),
            );
        },
    };
    let default_idx = match set_get_index_of(config_files, DEFAULT_CONFIG_FILENAME) {
        Some(at) => at,
        None => {
            return Err(
                ArcellaUtilsError::Internal(String::from_str("the default configuration is not registered")),
            );
        },
    };
    let prefix = join_dotted(&params.prefix);
    Ok(merge_layers(default_config, configs, main_idx, default_idx, prefix.as_str(), warnings))
}

/// The settings that the rest of the runtime starts from.
#[derive(Debug, Clone, PartialEq, Eq)]
pub struct ArcellaConfig {
    pub base_dir: String,
    pub config_dir: String,
    pub log_dir: String,
    pub modules_dir: String,
    pub cache_dir: String,
    pub socket_path: String,
    pub integrity_check_paths: Vec<String>,
}

/// Key of the directory for logs.
pub const LOG_DIR_KEY: &'static str = "arcella.log.dir";

/// Key of the directory for modules.
pub const MODULES_DIR_KEY: &'static str = "arcella.modules.dir";

/// Key of the directory for caches.
pub const CACHE_DIR_KEY: &'static str = "arcella.cache.dir";

/// Key of the path of the management socket.
pub const SOCKET_PATH_KEY: &'static str = "arcella.alme.socket.path";

/// The string stored under `key`, if a string is stored there.
pub open spec fn text_at(entries: Seq<(Seq<char>, (Value, usize))>, key: Seq<char>) -> Option<Seq<char>> {
    let at = key_position(entries, key);
    if at < 0 {
        None
    } else {
        match flat_entry(entries[at]).value {
            ValueView::String(s) => Some(s),
            _ => None,
        }
    }
}

/// The value stored under `key`, if one is stored there.
pub fn get_value<'a>(values: &'a ConfigValues, key: &str) -> (r: Option<&'a Value>)
    ensures
        match r {
            Some(value) => key_position(map_entries(*values), key@) >= 0 && value@ == flat_entry(
                map_entries(*values)[key_position(map_entries(*values), key@)],
            ).value,
            None => key_position(map_entries(*values), key@) < 0,
        },
{
    proof {
        lemma_item_position(entry_keys(map_entries(*values)), key@);
    }
    match map_get(values, key) {
        Some(stored) => Some(&stored.0),
        None => None,
    }
}

/// The string stored under `key`, if a string is stored there.
pub fn get_text(values: &ConfigValues, key: &str) -> (r: Option<String>)
    ensures
        match r {
            Some(text) => text_at(map_entries(*values), key@) == Some(text@),
            None => text_at(map_entries(*values), key@) is None,
        },
{
    proof {
        lemma_item_position(entry_keys(map_entries(*values)), key@);
    }
    match map_get(values, key) {
        Some(stored) => match &stored.0 {
            Value::String(s) => Some(s.clone()),
            _ => None,
        },
        None => None,
    }
}

/// The complaint about a setting that is missing or is no string.
fn not_set(key: &str) -> (e: ArcellaUtilsError)
    ensures
        match e {
            ArcellaUtilsError::Internal(message) => message@ == key@ + " is not set"@,
            _ => false,
        },
{
    let mut message = String::from_str(key);
    message.append(" is not set");
    ArcellaUtilsError::Internal(message)
}

impl ArcellaConfig {
    /// Makes the runtime's settings out of the final configuration.
    ///
    /// The configuration is first put in the order of its keys. The
    /// directories for logs, modules and caches and the path of the socket
    /// are read from their keys; each must be there and be a string, and the
    /// first that is not, in that order, fails the load with its key.
    pub fn from_values(base_dir: String, config_dir: String, final_values: &mut ConfigValues) -> (r: Result<
        ArcellaConfig,
        ArcellaUtilsError,
    >)
        ensures
            map_entries(*final(final_values)).to_multiset() == map_entries(*old(final_values)).to_multiset(),
            ascending(entry_keys(map_entries(*final(final_values)))),
            ({
                let entries = map_entries(*final(final_values));
                match r {
                    Ok(config) => {
                        &&& config.base_dir == base_dir
                        &&& config.config_dir == config_dir
                        &&& text_at(entries, LOG_DIR_KEY@) == Some(config.log_dir@)
                        &&& text_at(entries, MODULES_DIR_KEY@) == Some(config.modules_dir@)
                        &&& text_at(entries, CACHE_DIR_KEY@) == Some(config.cache_dir@)
                        &&& text_at(entries, SOCKET_PATH_KEY@) == Some(config.socket_path@)
                        &&& config.integrity_check_paths@.len() == 0
                    },
                    Err(ArcellaUtilsError::Internal(message)) => {
                        if text_at(entries, LOG_DIR_KEY@) is None {
                            message@ == LOG_DIR_KEY@ + " is not set"@
                        } else if text_at(entries, MODULES_DIR_KEY@) is None {
                            message@ == MODULES_DIR_KEY@ + " is not set"@
                        } else if text_at(entries, CACHE_DIR_KEY@) is None {
                            message@ == CACHE_DIR_KEY@ + " is not set"@
                        } else {
                            text_at(entries, SOCKET_PATH_KEY@) is None && message@ == SOCKET_PATH_KEY@
                                + " is not set"@
                        }
                    },
                    Err(_) => false,
                }
            }),
    {
        map_sort_keys(final_values);
        let log_dir = match get_text(final_values, LOG_DIR_KEY) {
            Some(text) => text,
            None => {
                return Err(not_set(LOG_DIR_KEY));
            },
        };
        let modules_dir = match get_text(final_values, MODULES_DIR_KEY) {
            Some(text) => text,
            None => {
                return Err(not_set(MODULES_DIR_KEY));
            },
        };
        let cache_dir = match get_text(final_values, CACHE_DIR_KEY) {
            Some(text) => text,
            None => {
                return Err(not_set(CACHE_DIR_KEY));
            },
        };
        let socket_path = match get_text(final_values, SOCKET_PATH_KEY) {
            Some(text) => text,
            None => {
                return Err(not_set(SOCKET_PATH_KEY));
            },
        };
        Ok(
            ArcellaConfig {
                base_dir,
                config_dir,
                log_dir,
                modules_dir,
                cache_dir,
                socket_path,
                integrity_check_paths: Vec::new(),
            },
        )
    }
}

/// The flat entry that a candidate becomes when it is applied.
pub open spec fn applied_entry(c: Candidate) -> FlatEntry {
    FlatEntry { key: c.key, value: c.value, file: c.file }
}

/// Whether the primary file set the candidate's value or granted its
/// redefinition.
pub open spec fn authorized(c: Candidate, main_idx: usize) -> bool {
    c.file == main_idx || c.grant == Some(main_idx)
}

/// Whether `values` is what the application pass may make of `start` and
/// `candidates`: the entries of `start` keep their places and keys, and each
/// holds what it held or what an authorized candidate of its key gave; every
/// further entry has a key that may be introduced and holds what a
/// candidate of its key gave.
pub open spec fn gated(
    start: Seq<FlatEntry>,
    values: Seq<FlatEntry>,
    candidates: Seq<Candidate>,
    main_idx: usize,
    prefix: Seq<char>,
) -> bool {
    &&& values.len() >= start.len()
    &&& forall|i: int|
        0 <= i < start.len() ==> (#[trigger] values[i]).key == start[i].key && (values[i] == start[i]
            || exists|j: int|
            0 <= j < candidates.len() && authorized(#[trigger] candidates[j], main_idx) && values[i]
                == applied_entry(candidates[j]))
    &&& forall|i: int|
        start.len() <= i < values.len() ==> is_newable((#[trigger] values[i]).key, prefix) && exists|j: int|
            0 <= j < candidates.len() && values[i] == applied_entry(#[trigger] candidates[j])
}

/// The application pass never drops or reorders what it started from, lets
/// only authorized candidates replace it, and admits only keys that may be
/// introduced; it reports without forgetting what was reported.
pub proof fn lemma_apply_all_is_gated(st: Applied, candidates: Seq<Candidate>, main_idx: usize, prefix: Seq<char>)
    ensures
        gated(st.values, apply_all(st, candidates, main_idx, prefix).values, candidates, main_idx, prefix),
        apply_all(st, candidates, main_idx, prefix).warnings.len() >= st.warnings.len(),
        apply_all(st, candidates, main_idx, prefix).warnings.subrange(0, st.warnings.len() as int)
            == st.warnings,
    decreases candidates.len(),
{
    let out = apply_all(st, candidates, main_idx, prefix);
    if candidates.len() == 0 {
        assert(out.warnings.subrange(0, st.warnings.len() as int) =~= st.warnings);
    } else {
        let front = candidates.drop_last();
        let c = candidates.last();
        let before = apply_all(st, front, main_idx, prefix);
        lemma_apply_all_is_gated(st, front, main_idx, prefix);
        lemma_item_position(flat_keys(before.values), c.key);
        let at = item_position(flat_keys(before.values), c.key);
        assert(out == apply_one(before, c, main_idx, prefix));
        assert(out.warnings.subrange(0, st.warnings.len() as int) =~= before.warnings.subrange(
            0,
            st.warnings.len() as int,
        ));
        assert(candidates[candidates.len() - 1] == c);
        assert forall|i: int| 0 <= i < st.values.len() implies (#[trigger] out.values[i]).key
            == st.values[i].key && (out.values[i] == st.values[i] || exists|j: int|
            0 <= j < candidates.len() && authorized(#[trigger] candidates[j], main_idx) && out.values[i]
                == applied_entry(candidates[j])) by {
            if at >= 0 && authorized(c, main_idx) && i == at {
                assert(flat_keys(before.values)[at] == c.key);
                assert(out.values[i] == applied_entry(candidates[candidates.len() - 1]));
            } else {
                assert(out.values[i] == before.values[i]);
                if before.values[i] != st.values[i] {
                    let j = choose|j: int|
                        0 <= j < front.len() && authorized(#[trigger] front[j], main_idx) && before.values[i]
                            == applied_entry(front[j]);
                    assert(candidates[j] == front[j]);
                }
            }
        }
        assert forall|i: int| st.values.len() <= i < out.values.len() implies is_newable(
            (#[trigger] out.values[i]).key,
            prefix,
        ) && exists|j: int|
            0 <= j < candidates.len() && out.values[i] == applied_entry(#[trigger] candidates[j]) by {
            if i < before.values.len() && !(at >= 0 && authorized(c, main_idx) && i == at) {
                assert(out.values[i] == before.values[i]);
                let j = choose|j: int|
                    0 <= j < front.len() && before.values[i] == applied_entry(#[trigger] front[j]);
                assert(candidates[j] == front[j]);
            } else if i < before.values.len() {
                assert(flat_keys(before.values)[at] == c.key);
                assert(out.values[i].key == before.values[i].key);
                assert(out.values[i] == applied_entry(candidates[candidates.len() - 1]));
            } else {
                assert(out.values[i] == applied_entry(candidates[candidates.len() - 1]));
            }
        }
    }
}

/// The keys of the defaults with the values that come last for each, every
/// entry attributed to the defaults: what the result is seeded with holds
/// one entry for each key of the defaults and no other.
pub proof fn lemma_seed_holds_the_default_keys(defaults: Seq<FlatEntry>, default_idx: usize)
    ensures
        forall|key: Seq<char>|
            item_position(flat_keys(seed(defaults, default_idx)), key) >= 0 <==> item_position(
                flat_keys(defaults),
                key,
            ) >= 0,
        forall|i: int|
            0 <= i < seed(defaults, default_idx).len() ==> (#[trigger] seed(defaults, default_idx)[i]).file
                == default_idx,
    decreases defaults.len(),
{
    if defaults.len() > 0 {
        let front = defaults.drop_last();
        let last = defaults.last();
        lemma_seed_holds_the_default_keys(front, default_idx);
        let before = seed(front, default_idx);
        let entry = FlatEntry { key: last.key, value: last.value, file: default_idx };
        let after = seed(defaults, default_idx);
        assert(after == put(before, entry));
        lemma_item_position(flat_keys(before), last.key);
        let at = item_position(flat_keys(before), last.key);
        assert(flat_keys(defaults).drop_last() =~= flat_keys(front));
        assert(flat_keys(defaults).last() == last.key);
        if at < 0 {
            assert(flat_keys(after) =~= flat_keys(before).push(last.key));
        } else {
            assert(flat_keys(before)[at] == last.key);
            assert(flat_keys(after) =~= flat_keys(before));
        }
        assert forall|key: Seq<char>|
            item_position(flat_keys(after), key) >= 0 <==> item_position(flat_keys(defaults), key)
                >= 0 by {
            lemma_item_position(flat_keys(before), key);
            lemma_item_position(flat_keys(front), key);
            lemma_item_position(flat_keys(after), key);
            lemma_item_position(flat_keys(defaults), key);
            lemma_item_position_push(flat_keys(before), last.key, key);
            lemma_item_position_push(flat_keys(front), last.key, key);
            assert(flat_keys(defaults) =~= flat_keys(front).push(last.key));
        }
    }
}

/// What the merge guarantees whatever the files hold.
///
/// The result begins with one entry for each key of the defaults, in the
/// order of the defaults. Such an entry holds the default, attributed to the
/// defaults, unless a value for its key was set by the primary file or under
/// a grant of the primary file: then it holds that value, attributed to the
/// file that set it. Every further entry has a key in a section where keys
/// may be introduced. No warning that was there before is lost.
pub proof fn lemma_merge_is_gated_by_the_schema(
    warnings: Seq<WarningView>,
    defaults: Seq<FlatEntry>,
    layers: Seq<Seq<FlatEntry>>,
    main_idx: usize,
    default_idx: usize,
    prefix: Seq<char>,
)
    ensures
        ({
            let found = reconcile_layers(Reconciled { candidates: Seq::empty(), warnings }, layers, 0);
            let out = merged(warnings, defaults, layers, main_idx, default_idx, prefix);
            &&& gated(seed(defaults, default_idx), out.values, found.candidates, main_idx, prefix)
            &&& out.warnings.len() >= warnings.len()
            &&& out.warnings.subrange(0, warnings.len() as int) == warnings
        }),
{
    let start = Reconciled { candidates: Seq::empty(), warnings };
    let found = reconcile_layers(start, layers, 0);
    lemma_reconcile_layers_keeps_warnings(start, layers, 0);
    let seeded = Applied { values: seed(defaults, default_idx), warnings: found.warnings };
    lemma_apply_all_is_gated(seeded, found.candidates, main_idx, prefix);
    let out = apply_all(seeded, found.candidates, main_idx, prefix);
    assert(out.warnings.subrange(0, warnings.len() as int) =~= warnings) by {
        assert(out.warnings.subrange(0, found.warnings.len() as int) == found.warnings);
        assert(found.warnings.subrange(0, warnings.len() as int) == warnings);
        assert forall|i: int| 0 <= i < warnings.len() implies out.warnings[i] == warnings[i] by {
            assert(out.warnings.subrange(0, found.warnings.len() as int)[i] == found.warnings[i]);
            assert(found.warnings.subrange(0, warnings.len() as int)[i] == warnings[i]);
        }
    }
}

/// The reconciliation of one file reports without forgetting what was
/// reported.
pub proof fn lemma_reconcile_file_keeps_warnings(st: Reconciled, entries: Seq<FlatEntry>, layer: usize)
    ensures
        reconcile_file(st, entries, layer).warnings.len() >= st.warnings.len(),
        reconcile_file(st, entries, layer).warnings.subrange(0, st.warnings.len() as int) == st.warnings,
    decreases entries.len(),
{
    if entries.len() == 0 {
        assert(st.warnings.subrange(0, st.warnings.len() as int) =~= st.warnings);
    } else {
        lemma_reconcile_file_keeps_warnings(st, entries.drop_last(), layer);
        let before = reconcile_file(st, entries.drop_last(), layer);
        let after = reconcile_file(st, entries, layer);
        assert(after.warnings.subrange(0, st.warnings.len() as int) =~= before.warnings.subrange(
            0,
            st.warnings.len() as int,
        ));
    }
}

/// The reconciliation pass reports without forgetting what was reported.
pub proof fn lemma_reconcile_layers_keeps_warnings(st: Reconciled, layers: Seq<Seq<FlatEntry>>, from: int)
    ensures
        reconcile_layers(st, layers, from).warnings.len() >= st.warnings.len(),
        reconcile_layers(st, layers, from).warnings.subrange(0, st.warnings.len() as int) == st.warnings,
    decreases layers.len() - from,
{
    if from < 0 || from >= layers.len() {
        assert(st.warnings.subrange(0, st.warnings.len() as int) =~= st.warnings);
    } else {
        lemma_reconcile_layers_keeps_warnings(st, layers, from + 1);
        let below = reconcile_layers(st, layers, from + 1);
        lemma_reconcile_file_keeps_warnings(below, layers[from], from as usize);
        let after = reconcile_file(below, layers[from], from as usize);
        assert(after.warnings.subrange(0, st.warnings.len() as int) =~= st.warnings) by {
            assert forall|i: int| 0 <= i < st.warnings.len() implies after.warnings[i] == st.warnings[i] by {
                assert(after.warnings.subrange(0, below.warnings.len() as int)[i] == below.warnings[i]);
                assert(below.warnings.subrange(0, st.warnings.len() as int)[i] == st.warnings[i]);
            }
        }
    }
}

/// A key with the grant suffix behind it carries the suffix, and its target
/// is the key.
pub proof fn lemma_redef_key(key: Seq<char>)
    ensures
        is_redef(key + REDEF_SUFFIX@),
        redef_target(key + REDEF_SUFFIX@) == key,
{
    let granting = key + REDEF_SUFFIX@;
    assert(granting.subrange(granting.len() - REDEF_SUFFIX@.len(), granting.len() as int) =~= REDEF_SUFFIX@);
    assert(granting.subrange(0, granting.len() - REDEF_SUFFIX@.len()) =~= key);
}

/// The reconciliation of two files that hold one entry each, and what the
/// application pass makes of a single candidate and a single default.
proof fn lemma_two_layers_one_default(
    warnings: Seq<WarningView>,
    default_entry: FlatEntry,
    primary: Seq<FlatEntry>,
    included: FlatEntry,
    main_idx: usize,
    default_idx: usize,
    prefix: Seq<char>,
)
    requires
        primary.len() <= 1,
    ensures
        ({
            let start = Reconciled { candidates: Seq::empty(), warnings };
            let layers = seq![primary, seq![included]];
            let below = reconcile_one(start, included, 1);
            let found = if primary.len() == 0 {
                below
            } else {
                reconcile_one(below, primary[0], 0)
            };
            let seeded = Applied {
                values: seq![FlatEntry { key: default_entry.key, value: default_entry.value, file: default_idx }],
                warnings: found.warnings,
            };
            &&& reconcile_layers(start, layers, 0) == found
            &&& below.candidates == seq![
                Candidate {
                    key: redef_target(included.key),
                    value: included.value,
                    layer: 1,
                    file: included.file,
                    grant: None,
                },
            ]
            &&& below.warnings == warnings
            &&& found.candidates.len() == 1 ==> merged(
                warnings,
                seq![default_entry],
                layers,
                main_idx,
                default_idx,
                prefix,
            ) == apply_one(seeded, found.candidates[0], main_idx, prefix)
        }),
{
    let start = Reconciled { candidates: Seq::empty(), warnings };
    let layers = seq![primary, seq![included]];
    let below = reconcile_one(start, included, 1);
    assert(candidate_keys(start.candidates) =~= Seq::<Seq<char>>::empty());
    assert(reconcile_layers(start, layers, 2) == start);
    assert(seq![included].drop_last() =~= Seq::<FlatEntry>::empty());
    assert(reconcile_file(start, seq![included].drop_last(), 1) == start);
    assert(reconcile_file(start, seq![included], 1) == below);
    assert(layers[1] == seq![included]);
    assert(reconcile_layers(start, layers, 1) == below);
    assert(below.candidates =~= seq![
        Candidate {
            key: redef_target(included.key),
            value: included.value,
            layer: 1,
            file: included.file,
            grant: None,
        },
    ]);
    let found = if primary.len() == 0 {
        below
    } else {
        reconcile_one(below, primary[0], 0)
    };
    if primary.len() == 1 {
        assert(primary.drop_last() =~= Seq::<FlatEntry>::empty());
        assert(reconcile_file(below, primary.drop_last(), 0) == below);
        assert(primary.last() == primary[0]);
    }
    assert(reconcile_file(below, primary, 0) == found);
    assert(layers[0] == primary);
    assert(reconcile_layers(start, layers, 0) == found);
    let entry = FlatEntry { key: default_entry.key, value: default_entry.value, file: default_idx };
    assert(seq![default_entry].drop_last() =~= Seq::<FlatEntry>::empty());
    assert(seed(seq![default_entry].drop_last(), default_idx) =~= Seq::<FlatEntry>::empty());
    assert(flat_keys(Seq::<FlatEntry>::empty()) =~= Seq::<Seq<char>>::empty());
    assert(seed(seq![default_entry], default_idx) =~= seq![entry]);
    let seeded = Applied { values: seq![entry], warnings: found.warnings };
    if found.candidates.len() == 1 {
        assert(found.candidates.drop_last() =~= Seq::<Candidate>::empty());
        assert(apply_all(seeded, found.candidates.drop_last(), main_idx, prefix) == seeded);
        assert(found.candidates.last() == found.candidates[0]);
    }
}

/// The only key of a list of one is at position 0; another key is not in it.
proof fn lemma_position_in_one(only: Seq<char>, key: Seq<char>)
    ensures
        item_position(seq![only], key) == (if only == key {
            0int
        } else {
            -1int
        }),
{
    assert(seq![only].drop_last() =~= Seq::<Seq<char>>::empty());
    assert(item_position(seq![only].drop_last(), key) == -1);
}

/// A grant in the primary file lets an included file set a default.
///
/// Where the defaults hold `key`, the primary file holds only `key#redef`,
/// and an included file holds `key` with `value`, the result holds `value`
/// for `key`, attributed to the included file, and nothing is reported.
pub proof fn lemma_grant_of_the_primary_file_admits_the_included_value(
    key: Seq<char>,
    default_value: ValueView,
    granted_with: ValueView,
    value: ValueView,
    main_idx: usize,
    included_idx: usize,
    default_idx: usize,
    prefix: Seq<char>,
    warnings: Seq<WarningView>,
)
    requires
        !is_redef(key),
    ensures
        merged(
            warnings,
            seq![FlatEntry { key, value: default_value, file: default_idx }],
            seq![
                seq![FlatEntry { key: key + REDEF_SUFFIX@, value: granted_with, file: main_idx }],
                seq![FlatEntry { key, value, file: included_idx }],
            ],
            main_idx,
            default_idx,
            prefix,
        ) == (Applied { values: seq![FlatEntry { key, value, file: included_idx }], warnings }),
{
    let default_entry = FlatEntry { key, value: default_value, file: default_idx };
    let grant = FlatEntry { key: key + REDEF_SUFFIX@, value: granted_with, file: main_idx };
    let included = FlatEntry { key, value, file: included_idx };
    lemma_two_layers_one_default(warnings, default_entry, seq![grant], included, main_idx, default_idx, prefix);
    lemma_redef_key(key);
    let start = Reconciled { candidates: Seq::empty(), warnings };
    let below = reconcile_one(start, included, 1);
    assert(candidate_keys(below.candidates) =~= seq![key]);
    lemma_position_in_one(key, key);
    let found = reconcile_one(below, grant, 0);
    let candidate = Candidate { key, value, layer: 1, file: included_idx, grant: Some(main_idx) };
    assert(found.candidates =~= seq![candidate]);
    assert(found.warnings == warnings);
    let seeded = Applied { values: seq![default_entry], warnings };
    assert(flat_keys(seeded.values) =~= seq![key]);
    let out = apply_one(seeded, candidate, main_idx, prefix);
    assert(out.values =~= seq![included]);
}

/// Without a grant of the primary file an included file cannot set a
/// default.
///
/// Where the defaults hold `key`, the primary file holds nothing, and an
/// included file that is not the primary file holds `key`, the result holds
/// the default for `key`, attributed to the defaults, and the rejection is
/// reported.
pub proof fn lemma_without_a_grant_the_default_stays(
    key: Seq<char>,
    default_value: ValueView,
    value: ValueView,
    main_idx: usize,
    included_idx: usize,
    default_idx: usize,
    prefix: Seq<char>,
    warnings: Seq<WarningView>,
)
    requires
        !is_redef(key),
        included_idx != main_idx,
    ensures
        merged(
            warnings,
            seq![FlatEntry { key, value: default_value, file: default_idx }],
            seq![Seq::empty(), seq![FlatEntry { key, value, file: included_idx }]],
            main_idx,
            default_idx,
            prefix,
        ) == (Applied {
            values: seq![FlatEntry { key, value: default_value, file: default_idx }],
            warnings: warnings.push(ungranted_warning(key, included_idx, 1)),
        }),
{
    let default_entry = FlatEntry { key, value: default_value, file: default_idx };
    let included = FlatEntry { key, value, file: included_idx };
    lemma_two_layers_one_default(
        warnings,
        default_entry,
        Seq::empty(),
        included,
        main_idx,
        default_idx,
        prefix,
    );
    let seeded = Applied { values: seq![default_entry], warnings };
    assert(flat_keys(seeded.values) =~= seq![key]);
    lemma_position_in_one(key, key);
}

/// A key that the defaults do not hold is admitted in the sections where
/// keys may be introduced and nowhere else.
///
/// Where the defaults hold only another key, the primary file holds
/// nothing, and an included file holds `key`: if `key` may be introduced the
/// result holds it behind the default, attributed to the included file, and
/// nothing is reported; if not, the result holds the default alone and the
/// rejection is reported.
pub proof fn lemma_new_keys_are_gated_by_their_section(
    key: Seq<char>,
    value: ValueView,
    default_key: Seq<char>,
    default_value: ValueView,
    main_idx: usize,
    included_idx: usize,
    default_idx: usize,
    prefix: Seq<char>,
    warnings: Seq<WarningView>,
)
    requires
        !is_redef(key),
        key != default_key,
    ensures
        merged(
            warnings,
            seq![FlatEntry { key: default_key, value: default_value, file: default_idx }],
            seq![Seq::empty(), seq![FlatEntry { key, value, file: included_idx }]],
            main_idx,
            default_idx,
            prefix,
        ) == (if is_newable(key, prefix) {
            Applied {
                values: seq![
                    FlatEntry { key: default_key, value: default_value, file: default_idx },
                    FlatEntry { key, value, file: included_idx },
                ],
                warnings,
            }
        } else {
            Applied {
                values: seq![FlatEntry { key: default_key, value: default_value, file: default_idx }],
                warnings: warnings.push(unknown_key_warning(key, 1)),
            }
        }),
{
    let default_entry = FlatEntry { key: default_key, value: default_value, file: default_idx };
    let included = FlatEntry { key, value, file: included_idx };
    lemma_two_layers_one_default(
        warnings,
        default_entry,
        Seq::empty(),
        included,
        main_idx,
        default_idx,
        prefix,
    );
    let seeded = Applied { values: seq![default_entry], warnings };
    assert(flat_keys(seeded.values) =~= seq![default_key]);
    lemma_position_in_one(default_key, key);
    let candidate = Candidate { key, value, layer: 1, file: included_idx, grant: None };
    let out = apply_one(seeded, candidate, main_idx, prefix);
    if is_newable(key, prefix) {
        assert(out.values =~= seq![default_entry, included]);
    }
}

} // verus!
