<?xml version="1.0" encoding="UTF-8"?>
<interface>
  <requires lib="gtk" version="4.10"/>
  <object class="GtkBox" id="row">
    <property name="orientation">vertical</property>
    <property name="spacing">2</property>
    <style><class name="actions-command-card"/></style>
    <child>
      <object class="GtkBox">
        <property name="spacing">8</property>
        <child><object class="GtkCheckButton" id="check"/></child>
        <child><object class="GtkLabel" id="name">
          <property name="xalign">0</property>
          <property name="hexpand">true</property>
          <style><class name="actions-command-title"/></style>
        </object></child>
        <child><object class="GtkLabel" id="kind"><style><class name="actions-run-status"/></style></object></child>
        <child><object class="GtkLabel" id="auth_label"><style><class name="actions-run-status"/></style></object></child>
        <child><object class="GtkButton" id="auth">
          <property name="label">Auth</property>
          <style><class name="app-flat-button"/><class name="actions-run-button"/></style>
        </object></child>
        <child>
          <object class="GtkButton" id="details">
            <property name="has-frame">false</property>
            <property name="tooltip-text">Show details</property>
            <style><class name="app-flat-button"/></style>
            <child><object class="GtkImage" id="details_icon">
              <property name="icon-name">pan-end-symbolic</property>
              <property name="pixel-size">12</property>
            </object></child>
          </object>
        </child>
      </object>
    </child>
    <child>
      <object class="GtkRevealer" id="revealer">
        <property name="reveal-child">false</property>
        <property name="transition-type">slide-down</property>
        <property name="transition-duration">140</property>
        <child><object class="GtkLabel" id="description">
          <property name="xalign">0</property>
          <property name="wrap">true</property>
          <property name="wrap-mode">word-char</property>
          <style><class name="actions-command-text"/></style>
        </object></child>
      </object>
    </child>
  </object>
</interface>
