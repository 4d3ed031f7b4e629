//! Whether FreeLLMAPI is to be used, and what that does to the settings.
use vstd::prelude::*;

use crate::freellmapi::config::{Config, ProviderConfig};
use crate::freellmapi::readiness::ReadyError;
use crate::text;

verus! {

/// The identifier of FreeLLMAPI among the providers.
pub const FREELLMAPI_PROVIDER_ID: &'static str = "freellmapi";

/// Whether the settings name FreeLLMAPI as the provider.
pub open spec fn names_provider<O>(config: Config<O>) -> bool {
    config.provider matches Some(provider) && provider@ == FREELLMAPI_PROVIDER_ID@
}

/// Whether the settings name a model of FreeLLMAPI.
pub open spec fn names_model<O>(config: Config<O>) -> bool {
    config.model matches Some(model) && "freellmapi/"@.is_prefix_of(model@)
}

/// Whether the settings leave the choice of the model open.
pub open spec fn leaves_model_open<O>(config: Config<O>) -> bool {
    config.model matches Some(model) && model@ == "auto"@
}

/// Whether FreeLLMAPI is to be the default: the user has chosen no provider, and no model or
/// any.
pub open spec fn is_default_choice<O>(
    config: Config<O>,
    provider_explicit: bool,
    model_explicit: bool,
) -> bool {
    !provider_explicit && (!model_explicit || leaves_model_open(config))
}

/// Whether FreeLLMAPI is to be used: the settings name it or one of its models, or it is the
/// default.
pub open spec fn is_needed<O>(
    config: Config<O>,
    provider_explicit: bool,
    model_explicit: bool,
) -> bool {
    ||| names_provider(config)
    ||| names_model(config)
    ||| is_default_choice(config, provider_explicit, model_explicit)
}

/// Why FreeLLMAPI is to be used: as the default, or for a model of its own.
#[derive(Clone, Copy, Debug, PartialEq, Eq, Structural)]
pub struct BootstrapPlan {
    pub should_default: bool,
    pub explicit_model: bool,
}

/// Whether a plan is the one that the settings call for.
pub open spec fn is_plan_for<O>(
    plan: BootstrapPlan,
    config: Config<O>,
    provider_explicit: bool,
    model_explicit: bool,
) -> bool {
    &&& is_needed(config, provider_explicit, model_explicit)
    &&& plan.should_default == is_default_choice(config, provider_explicit, model_explicit)
    &&& plan.explicit_model == names_model(config)
}

/// Whether FreeLLMAPI is to be used, and why: the settings name it or one of its models, or it is
/// the default.
pub fn bootstrap_if_needed<O>(
    config: &Config<O>,
    provider_explicit: bool,
    model_explicit: bool,
) -> (plan: Option<BootstrapPlan>)
    ensures
        plan is Some <==> is_needed(*config, provider_explicit, model_explicit),
        plan matches Some(p) ==> is_plan_for(p, *config, provider_explicit, model_explicit),
        (plan matches Some(p) && p.should_default) <==> !provider_explicit && (!model_explicit || (
        config.model matches Some(model) && model@ == "auto"@)),
        (plan matches Some(p) && p.explicit_model) <==> (config.model matches Some(model)
            && "freellmapi/"@.is_prefix_of(model@)),
        (config.provider matches Some(provider) && provider@ == "freellmapi"@) ==> plan is Some,
{
    let explicit_provider = match &config.provider {
        Some(provider) => text::same_text(provider.as_str(), FREELLMAPI_PROVIDER_ID),
        None => false,
    };
    let explicit_model = match &config.model {
        Some(model) => text::starts_with(model.as_str(), "freellmapi/"),
        None => false,
    };
    let model_is_auto = match &config.model {
        Some(model) => text::same_text(model.as_str(), "auto"),
        None => false,
    };
    let should_default = !provider_explicit && (!model_explicit || model_is_auto);
    if !explicit_provider && !explicit_model && !should_default {
        return None;
    }
    Some(BootstrapPlan { should_default, explicit_model })
}

/// How a bootstrap that the user is not bothered with ended: FreeLLMAPI is set up, or the settings
/// stay as they are because it could not be had.
pub enum BootstrapEnd {
    Configured,
    FellBack(ReadyError),
}

/// A server that is ready: where it is reached, and with which key.
pub struct ReadyServer {
    pub origin: String,
    pub api_key: String,
}

/// Whether `after` is what the settings are once FreeLLMAPI is set up: it is reached where the
/// server is, with its key; the key that stood for whichever provider was used before is dropped,
/// unless the user gave it; and FreeLLMAPI is the provider, if the plan asks for it.
pub open spec fn is_set_up<O>(
    before: Config<O>,
    after: Config<O>,
    plan: BootstrapPlan,
    api_key_explicit: bool,
    server: ReadyServer,
    fresh: O,
) -> bool {
    let id = FREELLMAPI_PROVIDER_ID@;
    let known = before.provider_configs@;
    &&& after.provider_configs.wf()
    &&& after.provider_configs@ == known.insert(
        id,
        (ProviderConfig {
            api_base: Some(server.origin),
            api_key: Some(server.api_key),
            other: if known.contains_key(id) {
                known[id].other
            } else {
                fresh
            },
        }),
    )
    &&& after.api_key == (if api_key_explicit {
        before.api_key
    } else {
        None
    })
    &&& after.model == before.model
    &&& if plan.should_default || plan.explicit_model {
        names_provider(after)
    } else {
        after.provider == before.provider
    }
}

/// Sets FreeLLMAPI up as a plan asks, if the server got ready. If it did not, the settings stay as
/// they are; that is an error unless FreeLLMAPI was only the default. `fresh` stands for the other
/// settings of a provider that had none.
pub fn finish_bootstrap<O>(
    config: &mut Config<O>,
    plan: BootstrapPlan,
    api_key_explicit: bool,
    ready: Result<ReadyServer, ReadyError>,
    fresh: O,
) -> (end: Result<BootstrapEnd, ReadyError>)
    requires
        old(config).provider_configs.wf(),
    ensures
        match ready {
            Ok(server) => end == Ok::<BootstrapEnd, ReadyError>(BootstrapEnd::Configured)
                && is_set_up(*old(config), *final(config), plan, api_key_explicit, server, fresh),
            Err(err) => *final(config) == *old(config) && end == (if plan.should_default {
                Ok(BootstrapEnd::FellBack(err))
            } else {
                Err(err)
            }),
        },
{
    match ready {
        Ok(server) => {
            config.provider_configs.set_endpoint(
                FREELLMAPI_PROVIDER_ID,
                server.origin,
                server.api_key,
                fresh,
            );
            if !api_key_explicit {
                config.api_key = None;
            }
            if plan.should_default || plan.explicit_model {
                config.provider = Some(String::from_str(FREELLMAPI_PROVIDER_ID));
            }
            Ok(BootstrapEnd::Configured)
        },
        Err(err) => {
            if plan.should_default {
                Ok(BootstrapEnd::FellBack(err))
            } else {
                Err(err)
            }
        },
    }
}

/// Once FreeLLMAPI is set up as the settings called for, it is the provider, its own key is the one
/// in use unless the user gave another, and no other entry among the providers has changed.
pub proof fn law_set_up_makes_it_the_provider<O>(
    before: Config<O>,
    after: Config<O>,
    plan: BootstrapPlan,
    provider_explicit: bool,
    model_explicit: bool,
    api_key_explicit: bool,
    server: ReadyServer,
    fresh: O,
)
    requires
        is_plan_for(plan, before, provider_explicit, model_explicit),
        is_set_up(before, after, plan, api_key_explicit, server, fresh),
    ensures
        names_provider(after),
        after.provider_configs@.contains_key(FREELLMAPI_PROVIDER_ID@),
        after.provider_configs@[FREELLMAPI_PROVIDER_ID@].api_base == Some(server.origin),
        after.provider_configs@[FREELLMAPI_PROVIDER_ID@].api_key == Some(server.api_key),
        !api_key_explicit ==> after.api_key is None,
        api_key_explicit ==> after.api_key == before.api_key,
        forall|id: Seq<char>|
            id != FREELLMAPI_PROVIDER_ID@ ==> (#[trigger] after.provider_configs@.contains_key(id)
                == before.provider_configs@.contains_key(id)) && (
            before.provider_configs@.contains_key(id) ==> after.provider_configs@[id]
                == before.provider_configs@[id]),
{
}

/// Setting FreeLLMAPI up once more, with the same server and the same word of the user on the key,
/// changes nothing.
pub proof fn law_set_up_twice<O>(
    before: Config<O>,
    once: Config<O>,
    twice: Config<O>,
    plan: BootstrapPlan,
    next_plan: BootstrapPlan,
    provider_explicit: bool,
    model_explicit: bool,
    api_key_explicit: bool,
    server: ReadyServer,
    fresh: O,
)
    requires
        is_plan_for(plan, before, provider_explicit, model_explicit),
        is_set_up(before, once, plan, api_key_explicit, server, fresh),
        is_set_up(once, twice, next_plan, api_key_explicit, server, fresh),
    ensures
        is_needed(once, provider_explicit, model_explicit),
        names_provider(once),
        names_provider(twice),
        twice.model == once.model,
        twice.api_key == once.api_key,
        twice.provider_configs@ == once.provider_configs@,
{
    assert(twice.provider_configs@ =~= once.provider_configs@);
}

/// Settings that name neither FreeLLMAPI nor one of its models are left alone if the user has
/// chosen the provider, or a model other than any.
pub proof fn law_explicit_choice_is_kept<O>(
    config: Config<O>,
    provider_explicit: bool,
    model_explicit: bool,
)
    requires
        !names_provider(config),
        !names_model(config),
        provider_explicit || (model_explicit && !leaves_model_open(config)),
    ensures
        !is_needed(config, provider_explicit, model_explicit),
{
}

/// FreeLLMAPI is the default exactly if the user has chosen no provider, and no model or the model
/// `auto`. Which provider the settings name plays no part in it.
pub proof fn law_default_whatever_the_settings<O>(
    config: Config<O>,
    plan: BootstrapPlan,
    provider_explicit: bool,
    model_explicit: bool,
)
    ensures
        !provider_explicit && !model_explicit ==> is_needed(
            config,
            provider_explicit,
            model_explicit,
        ),
        !provider_explicit && (config.model matches Some(model) && model@ == "auto"@) ==> is_needed(
            config,
            provider_explicit,
            model_explicit,
        ),
        is_plan_for(plan, config, provider_explicit, model_explicit) ==> (plan.should_default <==> {
            &&& !provider_explicit
            &&& !model_explicit || (config.model matches Some(model) && model@ == "auto"@)
        }),
{
}

/// FreeLLMAPI is needed by settings that name it as the provider or name one of its models, whatever
/// the user has chosen; and by no others unless it is the default.
pub proof fn law_named_is_needed<O>(
    config: Config<O>,
    plan: BootstrapPlan,
    provider_explicit: bool,
    model_explicit: bool,
    model: Seq<char>,
)
    ensures
        (config.provider matches Some(provider) && provider@ == "freellmapi"@) ==> is_needed(
            config,
            provider_explicit,
            model_explicit,
        ),
        (config.model matches Some(chosen) && chosen@ == "freellmapi/"@ + model) ==> is_needed(
            config,
            provider_explicit,
            model_explicit,
        ),
        is_plan_for(plan, config, provider_explicit, model_explicit) ==> (plan.explicit_model <==> (
        config.model matches Some(chosen) && "freellmapi/"@.is_prefix_of(chosen@))),
        is_needed(config, provider_explicit, model_explicit) ==> {
            ||| config.provider matches Some(provider) && provider@ == "freellmapi"@
            ||| config.model matches Some(chosen) && "freellmapi/"@.is_prefix_of(chosen@)
            ||| !provider_explicit && !model_explicit
            ||| !provider_explicit && (config.model matches Some(chosen) && chosen@ == "auto"@)
        },
{
    if config.model matches Some(chosen) && chosen@ == "freellmapi/"@ + model {
        let n = "freellmapi/"@.len() as int;
        assert("freellmapi/"@ =~= ("freellmapi/"@ + model).subrange(0, n));
    }
}

/// Two settings with the same provider and the same model call for the same plan: keys and the
/// settings of providers play no part in it.
pub proof fn law_plan_rests_on_provider_and_model<O>(
    a: Config<O>,
    b: Config<O>,
    plan: BootstrapPlan,
    provider_explicit: bool,
    model_explicit: bool,
)
    requires
        a.provider == b.provider,
        a.model == b.model,
    ensures
        is_needed(a, provider_explicit, model_explicit) == is_needed(
            b,
            provider_explicit,
            model_explicit,
        ),
        is_plan_for(plan, a, provider_explicit, model_explicit) == is_plan_for(
            plan,
            b,
            provider_explicit,
            model_explicit,
        ),
{
}

/// Setting FreeLLMAPI up makes it the provider if the plan asks for it, and else keeps the provider;
/// it keeps the model, and of the settings of FreeLLMAPI all but where it is reached and with which
/// key.
pub proof fn law_set_up_keeps_the_rest<O>(
    before: Config<O>,
    after: Config<O>,
    plan: BootstrapPlan,
    api_key_explicit: bool,
    server: ReadyServer,
    fresh: O,
)
    requires
        is_set_up(before, after, plan, api_key_explicit, server, fresh),
    ensures
        ({
            let id = "freellmapi"@;
            &&& after.provider_configs.wf()
            &&& after.model == before.model
            &&& plan.should_default || plan.explicit_model ==> (after.provider matches Some(p) && p@
                == id)
            &&& !plan.should_default && !plan.explicit_model ==> after.provider == before.provider
            &&& api_key_explicit ==> after.api_key == before.api_key
            &&& !api_key_explicit ==> after.api_key is None
            &&& after.provider_configs@.contains_key(id)
            &&& after.provider_configs@[id].api_base == Some(server.origin)
            &&& after.provider_configs@[id].api_key == Some(server.api_key)
            &&& before.provider_configs@.contains_key(id) ==> after.provider_configs@[id].other
                == before.provider_configs@[id].other
            &&& !before.provider_configs@.contains_key(id) ==> after.provider_configs@[id].other
                == fresh
            &&& after.provider_configs@.remove(id) == before.provider_configs@.remove(id)
        }),
{
    let id = "freellmapi"@;
    assert(after.provider_configs@.remove(id) =~= before.provider_configs@.remove(id));
}

} // verus!
